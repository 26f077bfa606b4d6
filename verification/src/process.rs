//! The process table: who runs inside a worktree, who owns a reservation, and
//! who must never be terminated.
//!
//! A table is a snapshot. Working directories and worktree paths are resolved
//! (absolute, without symbolic links) before they get here.

use vstd::prelude::*;
use vstd::string::*;

use crate::path::{inside, is_inside};
use crate::text::{decimal_int, decimal_int_text};

verus! {

/// A process found inside a worktree.
#[derive(Clone, Debug, PartialEq, Eq)]
pub struct ProcessInfo {
    pub pid: i32,
    pub name: String,
}

/// What a [`ProcessInfo`] says.
pub struct ProcessInfoView {
    pub pid: i32,
    pub name: Seq<char>,
}

impl View for ProcessInfo {
    type V = ProcessInfoView;

    open spec fn view(&self) -> ProcessInfoView {
        ProcessInfoView { pid: self.pid, name: self.name@ }
    }
}

/// The views of a list of processes.
pub open spec fn info_views(v: Seq<ProcessInfo>) -> Seq<ProcessInfoView> {
    v.map_values(|p: ProcessInfo| p@)
}

impl ProcessInfo {
    /// `name (pid)`.
    pub open spec fn label_spec(p: ProcessInfoView) -> Seq<char> {
        p.name + " ("@ + decimal_int(p.pid as int) + ")"@
    }

    /// The process as `name (pid)`.
    pub fn label(&self) -> (r: String)
        ensures
            r@ == Self::label_spec(self@),
    {
        let mut s = self.name.clone();
        s.append(" (");
        s.append(&decimal_int_text(self.pid as i64));
        s.append(")");
        s
    }

    /// An equal process description.
    pub fn copy(&self) -> (r: ProcessInfo)
        ensures
            r == *self,
    {
        ProcessInfo { pid: self.pid, name: self.name.clone() }
    }
}

/// A copy of a list of processes.
pub fn copy_infos(v: &Vec<ProcessInfo>) -> (r: Vec<ProcessInfo>)
    ensures
        r@ == v@,
{
    let mut out: Vec<ProcessInfo> = Vec::new();
    let mut i: usize = 0;
    while i < v.len()
        invariant
            i <= v.len(),
            out@ == v@.take(i as int),
        decreases v.len() - i,
    {
        out.push(v[i].copy());
        i += 1;
    }
    assert(v@.take(v.len() as int) =~= v@);
    out
}

/// One running process.
#[derive(Clone, Debug, PartialEq, Eq)]
pub struct ProcessRecord {
    pub pid: i32,
    /// The parent, where it is known.
    pub parent: Option<i32>,
    /// When the process started, in milliseconds since the epoch.
    pub started_at: i64,
    /// The resolved working directory; none where it cannot be read.
    pub cwd: Option<String>,
    pub name: String,
}

impl ProcessRecord {
    /// A process that started at a whole second since the epoch.
    pub fn new(
        pid: i32,
        parent: Option<i32>,
        start_secs: u64,
        cwd: Option<String>,
        name: String,
    ) -> (r: ProcessRecord)
        requires
            start_secs * 1000 <= i64::MAX,
        ensures
            r.pid == pid,
            r.parent == parent,
            r.started_at == start_secs * 1000,
            r.cwd == cwd,
            r.name == name,
    {
        ProcessRecord { pid, parent, started_at: (start_secs * 1000) as i64, cwd, name }
    }

    /// The process runs in `dir` or below it.
    pub open spec fn runs_in(self, dir: Seq<char>) -> bool {
        self.cwd matches Some(cwd) && inside(dir, cwd@)
    }
}

/// A snapshot of the running processes.
#[derive(Clone, Debug, PartialEq, Eq)]
pub struct ProcessTable {
    pub records: Vec<ProcessRecord>,
}

/// Errors from process operations.
#[derive(Clone, Debug, PartialEq, Eq)]
pub enum ProcessError {
    Scan(String),
}

impl ProcessError {
    /// The message of the error.
    pub open spec fn message_spec(self) -> Seq<char> {
        match self {
            ProcessError::Scan(what) => "process scan failed: "@ + what@,
        }
    }

    /// The message of the error.
    pub fn message(&self) -> (r: String)
        ensures
            r@ == self.message_spec(),
    {
        match self {
            ProcessError::Scan(what) => {
                let mut s = "process scan failed: ".to_owned();
                s.append(what);
                s
            },
        }
    }
}

/// The position of the first record of `pid`; the length where there is none.
pub open spec fn record_of(rs: Seq<ProcessRecord>, pid: i32) -> int
    decreases rs.len(),
{
    if rs.len() == 0 || rs[0].pid == pid {
        0
    } else {
        1 + record_of(rs.skip(1), pid)
    }
}

/// The start time of `pid` in milliseconds since the epoch, where it runs.
pub open spec fn started_spec(rs: Seq<ProcessRecord>, pid: i32) -> Option<i64> {
    let i = record_of(rs, pid);
    if 0 <= i < rs.len() {
        Some(rs[i].started_at)
    } else {
        None
    }
}

/// The parent of `pid`, where it runs and its parent is known.
pub open spec fn parent_of(rs: Seq<ProcessRecord>, pid: i32) -> Option<i32> {
    let i = record_of(rs, pid);
    if 0 <= i < rs.len() {
        rs[i].parent
    } else {
        None
    }
}

/// The processes that run in `dir` or below it, in the order of the table.
pub open spec fn running_in(rs: Seq<ProcessRecord>, dir: Seq<char>) -> Seq<ProcessInfoView>
    decreases rs.len(),
{
    if rs.len() == 0 {
        seq![]
    } else {
        let rest = running_in(rs.drop_last(), dir);
        if rs.last().runs_in(dir) {
            rest.push(ProcessInfoView { pid: rs.last().pid, name: rs.last().name@ })
        } else {
            rest
        }
    }
}

/// How many records have a parent that is not in `seen`.
pub open spec fn unseen_parents(rs: Seq<ProcessRecord>, seen: Seq<i32>) -> nat
    decreases rs.len(),
{
    if rs.len() == 0 {
        0
    } else {
        unseen_parents(rs.drop_last(), seen) + if rs.last().parent matches Some(p) && !seen.contains(
            p,
        ) {
            1nat
        } else {
            0nat
        }
    }
}

/// The chain of ancestors that continues `seen`, whose last is the process at
/// hand: it ends where a parent is not positive or was seen before, and there
/// is none where a parent is not known.
pub open spec fn chain(rs: Seq<ProcessRecord>, seen: Seq<i32>) -> Result<Seq<i32>, i32>
    decreases unseen_parents(rs, seen),
    via chain_decreases
{
    let pid = seen.last();
    match parent_of(rs, pid) {
        None => Err(pid),
        Some(p) => if p > 0 && !seen.contains(p) {
            chain(rs, seen.push(p))
        } else {
            Ok(seen)
        },
    }
}

#[via_fn]
proof fn chain_decreases(rs: Seq<ProcessRecord>, seen: Seq<i32>) {
    if let Some(p) = parent_of(rs, seen.last()) {
        if p > 0 && !seen.contains(p) {
            lemma_record_of(rs, seen.last());
            lemma_unseen_shrinks(rs, seen, p, record_of(rs, seen.last()));
        }
    }
}

proof fn lemma_record_of(rs: Seq<ProcessRecord>, pid: i32)
    ensures
        0 <= record_of(rs, pid) <= rs.len(),
        record_of(rs, pid) < rs.len() ==> rs[record_of(rs, pid)].pid == pid,
        forall|j: int| 0 <= j < record_of(rs, pid) ==> rs[j].pid != pid,
    decreases rs.len(),
{
    if rs.len() == 0 || rs[0].pid == pid {
    } else {
        let t = rs.skip(1);
        lemma_record_of(t, pid);
        assert forall|j: int| 0 <= j < record_of(rs, pid) implies rs[j].pid != pid by {
            if j > 0 {
                assert(t[j - 1] == rs[j]);
            }
        }
        if record_of(rs, pid) < rs.len() {
            assert(t[record_of(t, pid)] == rs[record_of(rs, pid)]);
        }
    }
}

proof fn lemma_unseen_shrinks(rs: Seq<ProcessRecord>, seen: Seq<i32>, p: i32, at: int)
    requires
        0 <= at < rs.len(),
        rs[at].parent == Some(p),
        !seen.contains(p),
    ensures
        unseen_parents(rs, seen.push(p)) < unseen_parents(rs, seen),
    decreases rs.len(),
{
    let more = seen.push(p);
    lemma_unseen_weakens(rs.drop_last(), seen, p);
    assert(more[seen.len() as int] == p);
    assert(more.contains(p));
    if at == rs.len() - 1 {
    } else {
        assert(rs.drop_last()[at] == rs[at]);
        lemma_unseen_shrinks(rs.drop_last(), seen, p, at);
        lemma_seen_grows(seen, p);
    }
}

proof fn lemma_seen_grows(seen: Seq<i32>, p: i32)
    ensures
        forall|q: i32| seen.contains(q) ==> #[trigger] seen.push(p).contains(q),
{
    assert forall|q: i32| seen.contains(q) implies #[trigger] seen.push(p).contains(q) by {
        let i = choose|i: int| 0 <= i < seen.len() && seen[i] == q;
        assert(seen.push(p)[i] == q);
    }
}

proof fn lemma_unseen_weakens(rs: Seq<ProcessRecord>, seen: Seq<i32>, p: i32)
    ensures
        unseen_parents(rs, seen.push(p)) <= unseen_parents(rs, seen),
    decreases rs.len(),
{
    if rs.len() > 0 {
        lemma_unseen_weakens(rs.drop_last(), seen, p);
        lemma_seen_grows(seen, p);
    }
}

fn holds(v: &Vec<i32>, x: i32) -> (r: bool)
    ensures
        r == v@.contains(x),
{
    let mut i: usize = 0;
    while i < v.len()
        invariant
            i <= v.len(),
            forall|j: int| 0 <= j < i ==> v@[j] != x,
        decreases v.len() - i,
    {
        if v[i] == x {
            return true;
        }
        i += 1;
    }
    false
}

/// The processes whose pid is not in `protected`.
pub open spec fn unprotected(ps: Seq<ProcessInfoView>, protected: Seq<i32>) -> Seq<
    ProcessInfoView,
> {
    ps.filter(|p: ProcessInfoView| !protected.contains(p.pid))
}

impl ProcessTable {
    /// A table of the given processes.
    pub fn new(records: Vec<ProcessRecord>) -> (r: ProcessTable)
        ensures
            r.records == records,
    {
        ProcessTable { records }
    }

    fn position(&self, pid: i32) -> (r: usize)
        ensures
            r == record_of(self.records@, pid),
            r <= self.records.len(),
    {
        let mut i: usize = 0;
        while i < self.records.len() && self.records[i].pid != pid
            invariant
                i <= self.records.len(),
                forall|j: int| 0 <= j < i ==> self.records[j].pid != pid,
            decreases self.records.len() - i,
        {
            i += 1;
        }
        proof {
            lemma_record_of(self.records@, pid);
            let k = record_of(self.records@, pid);
            if k < i {
                assert(self.records[k].pid != pid);
            } else if i < k {
                assert(self.records@[i as int].pid != pid);
            }
        }
        i
    }

    /// Start time of `pid` in milliseconds since the epoch, where it runs.
    pub fn started_at(&self, pid: i32) -> (r: Option<i64>)
        ensures
            r == started_spec(self.records@, pid),
    {
        let i: usize = self.position(pid);
        if i < self.records.len() {
            Some(self.records[i].started_at)
        } else {
            None
        }
    }

    /// Whether a process with this pid runs.
    pub fn is_running(&self, pid: i32) -> (r: bool)
        ensures
            r == (exists|i: int|
                0 <= i < self.records.len() && (#[trigger] self.records[i]).pid == pid),
    {
        let i: usize = self.position(pid);
        proof {
            lemma_record_of(self.records@, pid);
            if i < self.records.len() {
                assert(self.records[i as int].pid == pid);
            }
        }
        i < self.records.len()
    }

    /// The parent of `pid`, if it can be told.
    pub fn parent_pid(&self, pid: i32) -> (r: Option<i32>)
        ensures
            r == parent_of(self.records@, pid),
    {
        let i: usize = self.position(pid);
        if i < self.records.len() {
            self.records[i].parent
        } else {
            None
        }
    }

    /// The processes whose working directory is the worktree or lies below
    /// it. The worktree path comes resolved; `None` where that failed.
    pub fn find_in_worktree(&self, worktree: Option<&str>) -> (r: Result<
        Vec<ProcessInfo>,
        ProcessError,
    >)
        ensures
            match worktree {
                Some(dir) => r matches Ok(v) && info_views(v@) == running_in(
                    self.records@,
                    dir@,
                ),
                None => r matches Err(ProcessError::Scan(what)) && what@
                    == "resolving worktree path"@,
            },
    {
        let dir = match worktree {
            Some(dir) => dir,
            None => return Err(ProcessError::Scan("resolving worktree path".to_owned())),
        };
        let mut out: Vec<ProcessInfo> = Vec::new();
        let mut i: usize = 0;
        while i < self.records.len()
            invariant
                i <= self.records.len(),
                info_views(out@) =~= running_in(self.records@.take(i as int), dir@),
            decreases self.records.len() - i,
        {
            let ghost before = out@;
            let rec = &self.records[i];
            let here: bool = match &rec.cwd {
                Some(cwd) => is_inside(dir, cwd),
                None => false,
            };
            assert(self.records@.take(i + 1).drop_last() =~= self.records@.take(i as int));
            if here {
                out.push(ProcessInfo { pid: rec.pid, name: rec.name.clone() });
                assert(info_views(out@) =~= info_views(before).push(out@.last()@));
            }
            i += 1;
        }
        assert(self.records@.take(self.records.len() as int) =~= self.records@);
        Ok(out)
    }

    /// Whether any process runs in the worktree.
    pub fn is_worktree_in_use(&self, worktree: Option<&str>) -> (r: Result<bool, ProcessError>)
        ensures
            match worktree {
                Some(dir) => r == Ok::<bool, ProcessError>(
                    running_in(self.records@, dir@).len() > 0,
                ),
                None => r matches Err(ProcessError::Scan(what)) && what@
                    == "resolving worktree path"@,
            },
    {
        match self.find_in_worktree(worktree) {
            Ok(v) => {
                assert(info_views(v@).len() == v.len());
                Ok(v.len() > 0)
            },
            Err(e) => Err(e),
        }
    }

    /// The pids that must never be terminated: `current_pid` and all its
    /// ancestors. An ancestor whose parent is not known is an error, so that
    /// nothing is terminated.
    pub fn protected_chain(&self, current_pid: i32) -> (r: Result<Vec<i32>, ProcessError>)
        ensures
            match chain(self.records@, seq![current_pid]) {
                Ok(pids) => r matches Ok(v) && v@ == pids,
                Err(pid) => r matches Err(ProcessError::Scan(what)) && what@
                    == "resolving parent of pid "@ + decimal_int(pid as int),
            },
    {
        let mut seen: Vec<i32> = Vec::new();
        seen.push(current_pid);
        let mut pid: i32 = current_pid;
        assert(seen@ =~= seq![current_pid]);
        loop
            invariant
                seen@.len() > 0,
                seen@.last() == pid,
                chain(self.records@, seen@) == chain(self.records@, seq![current_pid]),
            decreases unseen_parents(self.records@, seen@),
        {
            match self.parent_pid(pid) {
                Some(p) => {
                    if p > 0 && !holds(&seen, p) {
                        proof {
                            lemma_record_of(self.records@, pid);
                            lemma_unseen_shrinks(
                                self.records@,
                                seen@,
                                p,
                                record_of(self.records@, pid),
                            );
                        }
                        seen.push(p);
                        pid = p;
                    } else {
                        return Ok(seen);
                    }
                },
                None => {
                    let mut what = "resolving parent of pid ".to_owned();
                    what.append(&decimal_int_text(pid as i64));
                    return Err(ProcessError::Scan(what));
                },
            }
        }
    }

    /// The processes in the worktree that may be terminated: those outside
    /// the ancestor chain of `current_pid`.
    pub fn termination_targets(&self, worktree: Option<&str>, current_pid: i32) -> (r: Result<
        Vec<ProcessInfo>,
        ProcessError,
    >)
        ensures
            match worktree {
                None => r matches Err(ProcessError::Scan(what)) && what@
                    == "resolving worktree path"@,
                Some(dir) => match chain(self.records@, seq![current_pid]) {
                    Ok(pids) => r matches Ok(v) && info_views(v@) == unprotected(
                        running_in(self.records@, dir@),
                        pids,
                    ),
                    Err(pid) => r matches Err(ProcessError::Scan(what)) && what@
                        == "resolving parent of pid "@ + decimal_int(pid as int),
                },
            },
    {
        let procs = match self.find_in_worktree(worktree) {
            Ok(v) => v,
            Err(e) => return Err(e),
        };
        let protected = match self.protected_chain(current_pid) {
            Ok(v) => v,
            Err(e) => return Err(e),
        };
        let mut out: Vec<ProcessInfo> = Vec::new();
        let mut i: usize = 0;
        let ghost pred = |p: ProcessInfoView| !protected@.contains(p.pid);
        proof {
            reveal(Seq::filter);
            assert(info_views(procs@).take(0) =~= seq![]);
        }
        while i < procs.len()
            invariant
                i <= procs.len(),
                pred == (|p: ProcessInfoView| !protected@.contains(p.pid)),
                info_views(out@) =~= info_views(procs@).take(i as int).filter(pred),
            decreases procs.len() - i,
        {
            let ghost before = out@;
            proof {
                reveal(Seq::filter);
                let t = info_views(procs@).take(i + 1);
                assert(t.drop_last() =~= info_views(procs@).take(i as int));
                assert(t.last() == procs@[i as int]@);
            }
            if !holds(&protected, procs[i].pid) {
                out.push(procs[i].copy());
                assert(info_views(out@) =~= info_views(before).push(procs@[i as int]@));
            }
            i += 1;
        }
        assert(info_views(procs@).take(procs.len() as int) =~= info_views(procs@));
        Ok(out)
    }
}

/// What to do next with processes that were asked to terminate.
#[derive(Clone, Copy, Debug, PartialEq, Eq, Structural)]
pub enum TerminateStep {
    /// All of them are gone.
    Done,
    /// Look again after [`TERMINATE_POLL_MS`].
    Wait,
    /// The grace period is over: kill those that are still alive.
    Kill,
}

/// Milliseconds between two looks at processes that were asked to terminate.
pub const TERMINATE_POLL_MS: u64 = 50;

/// Milliseconds that processes get to end on their own.
pub const TERMINATE_GRACE_MS: u64 = 2000;

/// The next step in terminating processes, `elapsed_ms` after they were asked
/// to, where `any_alive` tells whether one of them is still there.
pub fn terminate_step(elapsed_ms: u64, grace_ms: u64, any_alive: bool) -> (r: TerminateStep)
    ensures
        r == if elapsed_ms >= grace_ms {
            TerminateStep::Kill
        } else if any_alive {
            TerminateStep::Wait
        } else {
            TerminateStep::Done
        },
{
    if elapsed_ms >= grace_ms {
        TerminateStep::Kill
    } else if any_alive {
        TerminateStep::Wait
    } else {
        TerminateStep::Done
    }
}

/// The calling process is never among the processes to terminate, nor is any
/// of its ancestors.
pub proof fn law_caller_is_protected(table: ProcessTable, dir: Seq<char>, current_pid: i32)
    ensures
        chain(table.records@, seq![current_pid]) matches Ok(pids) ==> {
            &&& pids.contains(current_pid)
            &&& forall|i: int|
                0 <= i < unprotected(running_in(table.records@, dir), pids).len()
                    ==> !pids.contains(
                    (#[trigger] unprotected(running_in(table.records@, dir), pids)[i]).pid,
                )
        },
{
    if let Ok(pids) = chain(table.records@, seq![current_pid]) {
        lemma_chain_keeps(table.records@, seq![current_pid], current_pid);
        assert(seq![current_pid][0] == current_pid);
        let pred = |p: ProcessInfoView| !pids.contains(p.pid);
        let all = running_in(table.records@, dir);
        assert forall|i: int| 0 <= i < unprotected(all, pids).len() implies !pids.contains(
            (#[trigger] unprotected(all, pids)[i]).pid,
        ) by {
            all.lemma_filter_pred(pred, i);
        }
    }
}

/// Every parent of a protected process that is positive is protected too.
pub proof fn law_chain_is_closed(table: ProcessTable, current_pid: i32)
    ensures
        chain(table.records@, seq![current_pid]) matches Ok(pids) ==> forall|i: int|
            0 <= i < pids.len() ==> (parent_of(table.records@, #[trigger] pids[i]) matches Some(p)
                && (p > 0 ==> pids.contains(p))),
{
    assert(seq![current_pid][0] == current_pid);
    lemma_chain_closed(table.records@, seq![current_pid]);
}

proof fn lemma_chain_keeps(rs: Seq<ProcessRecord>, seen: Seq<i32>, q: i32)
    requires
        seen.contains(q),
        seen.len() > 0,
    ensures
        chain(rs, seen) matches Ok(pids) ==> pids.contains(q),
    decreases unseen_parents(rs, seen),
{
    if let Some(p) = parent_of(rs, seen.last()) {
        if p > 0 && !seen.contains(p) {
            lemma_seen_grows(seen, p);
            lemma_record_of(rs, seen.last());
            lemma_unseen_shrinks(rs, seen, p, record_of(rs, seen.last()));
            lemma_chain_keeps(rs, seen.push(p), q);
        }
    }
}

proof fn lemma_chain_closed(rs: Seq<ProcessRecord>, seen: Seq<i32>)
    requires
        seen.len() > 0,
        forall|i: int|
            0 <= i < seen.len() - 1 ==> (parent_of(rs, #[trigger] seen[i]) matches Some(p) && (p > 0
                ==> seen.contains(p))),
    ensures
        chain(rs, seen) matches Ok(pids) ==> forall|i: int|
            0 <= i < pids.len() ==> (parent_of(rs, #[trigger] pids[i]) matches Some(p) && (p > 0
                ==> pids.contains(p))),
    decreases unseen_parents(rs, seen),
{
    if let Some(p) = parent_of(rs, seen.last()) {
        if p > 0 && !seen.contains(p) {
            let more = seen.push(p);
            lemma_seen_grows(seen, p);
            assert(more[seen.len() as int] == p);
            assert forall|i: int| 0 <= i < more.len() - 1 implies (parent_of(
                rs,
                #[trigger] more[i],
            ) matches Some(q) && (q > 0 ==> more.contains(q))) by {
                assert(more[i] == seen[i]);
                if i == seen.len() - 1 {
                    assert(more.contains(p));
                }
            }
            lemma_record_of(rs, seen.last());
            lemma_unseen_shrinks(rs, seen, p, record_of(rs, seen.last()));
            lemma_chain_closed(rs, more);
        } else {
            assert forall|i: int| 0 <= i < seen.len() implies (parent_of(
                rs,
                #[trigger] seen[i],
            ) matches Some(q) && (q > 0 ==> seen.contains(q))) by {
                if i == seen.len() - 1 {
                    assert(seen[i] == seen.last());
                }
            }
        }
    }
}

/// The start time and the parent of a process are those of the first record
/// that the table has of it; a process without a record has neither.
pub proof fn law_first_record_counts(rs: Seq<ProcessRecord>, pid: i32)
    ensures
        started_spec(rs, pid) is None <==> forall|i: int|
            0 <= i < rs.len() ==> (#[trigger] rs[i]).pid != pid,
        forall|i: int|
            0 <= i < rs.len() && (#[trigger] rs[i]).pid == pid && (forall|j: int|
                0 <= j < i ==> (#[trigger] rs[j]).pid != pid) ==> started_spec(rs, pid) == Some(
                rs[i].started_at,
            ) && parent_of(rs, pid) == rs[i].parent,
        started_spec(rs, pid) is None ==> parent_of(rs, pid) is None,
{
    lemma_record_of(rs, pid);
    let k = record_of(rs, pid);
    assert forall|i: int|
        0 <= i < rs.len() && (#[trigger] rs[i]).pid == pid && (forall|j: int|
            0 <= j < i ==> (#[trigger] rs[j]).pid != pid) implies started_spec(rs, pid) == Some(
        rs[i].started_at,
    ) && parent_of(rs, pid) == rs[i].parent by {
        if k < i {
            assert(rs[k].pid != pid);
        }
    }
}

/// The processes of a directory are those of the table whose current
/// directory is that directory or lies below it: all of them, no other, and
/// in the order of the table.
pub proof fn law_running_in_is_exact(rs: Seq<ProcessRecord>, dir: Seq<char>)
    ensures
        running_in(rs, dir) == rs.filter_map(
            |r: ProcessRecord|
                match r.cwd {
                    Some(cwd) => if inside(dir, cwd@) {
                        Some(ProcessInfoView { pid: r.pid, name: r.name@ })
                    } else {
                        None
                    },
                    None => None,
                },
        ),
    decreases rs.len(),
{
    reveal(Seq::filter_map);
    if rs.len() > 0 {
        law_running_in_is_exact(rs.drop_last(), dir);
    }
}

/// Every process in a directory is found there; a directory without a process
/// is one in which nothing is found.
pub proof fn law_every_process_is_found(rs: Seq<ProcessRecord>, dir: Seq<char>)
    ensures
        forall|i: int|
            0 <= i < rs.len() && ((#[trigger] rs[i]).cwd matches Some(cwd) && inside(dir, cwd@))
                ==> running_in(rs, dir).contains(
                ProcessInfoView { pid: rs[i].pid, name: rs[i].name@ },
            ),
        running_in(rs, dir).len() == 0 <==> forall|i: int|
            0 <= i < rs.len() ==> ((#[trigger] rs[i]).cwd matches Some(cwd) ==> !inside(dir, cwd@)),
    decreases rs.len(),
{
    if rs.len() > 0 {
        let front = rs.drop_last();
        let rest = running_in(front, dir);
        let all = running_in(rs, dir);
        law_every_process_is_found(front, dir);
        let here = rs.last().cwd matches Some(cwd) && inside(dir, cwd@);
        assert(here == rs.last().runs_in(dir));
        if here {
            assert(all.last() == (ProcessInfoView { pid: rs.last().pid, name: rs.last().name@ }));
        }
        assert forall|i: int|
            0 <= i < rs.len() && ((#[trigger] rs[i]).cwd matches Some(cwd) && inside(
                dir,
                cwd@,
            )) implies all.contains(ProcessInfoView { pid: rs[i].pid, name: rs[i].name@ }) by {
            let p = ProcessInfoView { pid: rs[i].pid, name: rs[i].name@ };
            if i < front.len() {
                assert(front[i] == rs[i]);
                let k = choose|k: int| 0 <= k < rest.len() && rest[k] == p;
                assert(all[k] == p);
            } else {
                assert(all[all.len() - 1] == p);
            }
        }
        if rest.len() == 0 && !here {
            assert forall|i: int| 0 <= i < rs.len() implies ((#[trigger] rs[i]).cwd matches Some(
                cwd,
            ) ==> !inside(dir, cwd@)) by {
                if i < front.len() {
                    assert(front[i] == rs[i]);
                }
            }
        }
        if forall|i: int|
            0 <= i < rs.len() ==> ((#[trigger] rs[i]).cwd matches Some(cwd) ==> !inside(dir, cwd@)) {
            assert forall|i: int| 0 <= i < front.len() implies ((#[trigger] front[i]).cwd matches Some(
                cwd,
            ) ==> !inside(dir, cwd@)) by {
                assert(front[i] == rs[i]);
            }
            assert(rs[rs.len() - 1] == rs.last());
        }
    }
}

/// What is terminated in a directory is every process there that is not
/// protected, and nothing else.
pub proof fn law_all_but_protected_are_terminated(
    rs: Seq<ProcessRecord>,
    dir: Seq<char>,
    pids: Seq<i32>,
)
    ensures
        unprotected(running_in(rs, dir), pids) == rs.filter_map(
            |r: ProcessRecord|
                match r.cwd {
                    Some(cwd) => if inside(dir, cwd@) && !pids.contains(r.pid) {
                        Some(ProcessInfoView { pid: r.pid, name: r.name@ })
                    } else {
                        None
                    },
                    None => None,
                },
        ),
    decreases rs.len(),
{
    reveal(Seq::filter);
    reveal(Seq::filter_map);
    if rs.len() > 0 {
        let front = rs.drop_last();
        let rest = running_in(front, dir);
        let last = ProcessInfoView { pid: rs.last().pid, name: rs.last().name@ };
        law_all_but_protected_are_terminated(front, dir, pids);
        if rs.last().runs_in(dir) {
            assert(running_in(rs, dir).drop_last() =~= rest);
            assert(running_in(rs, dir).last() == last);
        }
    }
}

/// The protected processes are the caller and its ancestors, and no others:
/// each is the parent of the one before it, none comes twice, and the row
/// cannot be told only where the parent of one of them is not known.
pub proof fn law_only_ancestors_are_protected(rs: Seq<ProcessRecord>, current_pid: i32)
    ensures
        match chain(rs, seq![current_pid]) {
            Ok(pids) => {
                &&& pids.len() > 0
                &&& pids[0] == current_pid
                &&& forall|i: int|
                    0 < i < pids.len() ==> #[trigger] pids[i] > 0 && parent_of(rs, pids[i - 1])
                        == Some(pids[i])
                &&& pids.no_duplicates()
            },
            Err(pid) => parent_of(rs, pid) is None,
        },
{
    lemma_chain_shape(rs, seq![current_pid]);
}

proof fn lemma_chain_shape(rs: Seq<ProcessRecord>, seen: Seq<i32>)
    requires
        seen.len() > 0,
        forall|i: int|
            0 < i < seen.len() ==> #[trigger] seen[i] > 0 && parent_of(rs, seen[i - 1]) == Some(
                seen[i],
            ),
        seen.no_duplicates(),
    ensures
        match chain(rs, seen) {
            Ok(pids) => {
                &&& pids.len() > 0
                &&& pids[0] == seen[0]
                &&& forall|i: int|
                    0 < i < pids.len() ==> #[trigger] pids[i] > 0 && parent_of(rs, pids[i - 1])
                        == Some(pids[i])
                &&& pids.no_duplicates()
            },
            Err(pid) => parent_of(rs, pid) is None,
        },
    decreases unseen_parents(rs, seen),
{
    if let Some(p) = parent_of(rs, seen.last()) {
        if p > 0 && !seen.contains(p) {
            let more = seen.push(p);
            assert forall|i: int| 0 < i < more.len() implies #[trigger] more[i] > 0 && parent_of(
                rs,
                more[i - 1],
            ) == Some(more[i]) by {
                if i < seen.len() {
                    assert(more[i] == seen[i]);
                }
                assert(more[i - 1] == seen[i - 1]);
            }
            assert(more.no_duplicates()) by {
                assert forall|i: int, j: int|
                    0 <= i < more.len() && 0 <= j < more.len() && i != j implies more[i]
                    != more[j] by {
                    if i < seen.len() && j < seen.len() {
                        assert(seen[i] != seen[j]);
                    } else if i < seen.len() {
                        assert(seen.contains(seen[i]));
                    } else {
                        assert(seen.contains(seen[j]));
                    }
                }
            }
            lemma_record_of(rs, seen.last());
            lemma_unseen_shrinks(rs, seen, p, record_of(rs, seen.last()));
            lemma_chain_shape(rs, more);
        }
    }
}

} // verus!
