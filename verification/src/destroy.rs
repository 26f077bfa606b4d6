//! Destroying worktrees, safe by default.
//!
//! Without a word of the user nothing is removed. Each class of risk has a
//! flag of its own, and a leased worktree goes only when it is named. A
//! removal has two phases: the worktree is reserved in the state, hooks run
//! outside every lock, and then the reservation and the classes are checked
//! again before anything is deleted. Whatever is not removed in the end gets
//! the owner back that it had.

use vstd::prelude::*;
use vstd::string::*;

use crate::git::{GitError, GitErrorKind, GitErrorView};
use crate::path::{join, join_spec};
use crate::pool::{entry_at, find_entry, shown_processes, PoolError};
use crate::process::{
    copy_infos, info_views, running_in, started_spec, ProcessInfo, ProcessInfoView, ProcessRecord, ProcessTable,
};
use crate::prune::lemma_contains_push;
use crate::reservation::{
    destroy_reserved, restored, still_held, undeterminable, Reservation, ReservationError,
};
use crate::state::{
    entry_views, lemma_entry_views_push, lemma_entry_views_update, lists, owned, owner_alive,
    EntryView, State, WorktreeEntry,
};
use crate::text::{
    after_prefix, begins, ends, ends_with, opt_str_view, opt_view, same_text, trim, trimmed, views,
};
use crate::worktree::{
    classes_of, classify_for_destroy, findings, flag_views, missing, primary, primary_detail,
    CheckView, ClassCheckResults, ClassSet, DestroyClass,
};

verus! {

/// Options of a destroy. Without a word it is a dry run.
#[derive(Clone, Debug, PartialEq, Eq)]
pub struct DestroyOptions {
    pub dry_run: bool,
    pub include_unlanded: bool,
    pub include_in_use: bool,
    pub include_leased: bool,
    pub pre_destroy: Vec<String>,
}

impl Default for DestroyOptions {
    fn default() -> (r: DestroyOptions)
        ensures
            r.dry_run,
            !r.include_unlanded,
            !r.include_in_use,
            !r.include_leased,
            r.pre_destroy@.len() == 0,
    {
        DestroyOptions {
            dry_run: true,
            include_unlanded: false,
            include_in_use: false,
            include_leased: false,
            pre_destroy: Vec::new(),
        }
    }
}

/// A worktree that a destroy looks at.
#[derive(Clone, Debug, PartialEq, Eq)]
pub struct DestroyTarget {
    pub name: String,
    pub path: String,
    pub bytes: u64,
    pub class: DestroyClass,
    pub classes: ClassSet,
    pub processes: Vec<ProcessInfo>,
    pub detail: String,
}

/// What a [`DestroyTarget`] says.
#[verifier::ext_equal]
pub struct TargetView {
    pub name: Seq<char>,
    pub path: Seq<char>,
    pub bytes: u64,
    pub class: DestroyClass,
    pub classes: Set<DestroyClass>,
    pub processes: Seq<ProcessInfoView>,
    pub detail: Seq<char>,
}

impl View for DestroyTarget {
    type V = TargetView;

    open spec fn view(&self) -> TargetView {
        TargetView {
            name: self.name@,
            path: self.path@,
            bytes: self.bytes,
            class: self.class,
            classes: self.classes@,
            processes: info_views(self.processes@),
            detail: self.detail@,
        }
    }
}

impl DestroyTarget {
    /// A copy.
    pub fn copy(&self) -> (r: DestroyTarget)
        ensures
            r@ == self@,
            r.classes == self.classes,
    {
        DestroyTarget {
            name: self.name.clone(),
            path: self.path.clone(),
            bytes: self.bytes,
            class: self.class,
            classes: self.classes,
            processes: copy_infos(&self.processes),
            detail: self.detail.clone(),
        }
    }
}

/// A worktree that a destroy left in place, and why.
#[derive(Clone, Debug, PartialEq, Eq)]
pub struct DestroySkip {
    pub target: DestroyTarget,
    pub needed_flags: Vec<&'static str>,
    /// It is leased and was not named.
    pub leased_bulk: bool,
    pub detail: String,
}

/// What a [`DestroySkip`] says.
#[verifier::ext_equal]
pub struct SkipView {
    pub target: TargetView,
    pub needed_flags: Seq<Seq<char>>,
    pub leased_bulk: bool,
    pub detail: Seq<char>,
}

impl View for DestroySkip {
    type V = SkipView;

    open spec fn view(&self) -> SkipView {
        SkipView {
            target: self.target@,
            needed_flags: flag_views(self.needed_flags@),
            leased_bulk: self.leased_bulk,
            detail: self.detail@,
        }
    }
}

/// The outcome of a destroy.
#[derive(Clone, Debug, PartialEq, Eq)]
pub struct DestroyResult {
    pub dry_run: bool,
    pub all: bool,
    pub scope: String,
    pub planned: Vec<DestroyTarget>,
    pub destroyed: Vec<DestroyTarget>,
    pub skipped: Vec<DestroySkip>,
    pub planned_bytes: u64,
    pub freed_bytes: u64,
}

/// What is to be destroyed.
#[derive(Clone, Debug, PartialEq, Eq)]
pub enum DestroyTargetSpec {
    /// The worktree at this path.
    Single(String),
    /// Every worktree of the pool.
    All,
}

/// The views of a list of targets.
pub open spec fn target_views(v: Seq<DestroyTarget>) -> Seq<TargetView> {
    v.map_values(|t: DestroyTarget| t@)
}

/// The views of a list of skips.
pub open spec fn skip_views(v: Seq<DestroySkip>) -> Seq<SkipView> {
    v.map_values(|t: DestroySkip| t@)
}

broadcast proof fn lemma_target_views_push(v: Seq<DestroyTarget>, t: DestroyTarget)
    ensures
        #[trigger] target_views(v.push(t)) == target_views(v).push(t@),
{
    assert(target_views(v.push(t)) =~= target_views(v).push(t@));
}

broadcast proof fn lemma_skip_views_push(v: Seq<DestroySkip>, t: DestroySkip)
    ensures
        #[trigger] skip_views(v.push(t)) == skip_views(v).push(t@),
{
    assert(skip_views(v.push(t)) =~= skip_views(v).push(t@));
}

// ---------- choosing ----------

/// The worktrees that are to be destroyed: all of them, or the first at the
/// path. A path that no worktree has is an error.
pub fn destroy_targets(state: &State, spec: &DestroyTargetSpec) -> (r: Result<
    Vec<WorktreeEntry>,
    PoolError,
>)
    ensures
        match *spec {
            DestroyTargetSpec::All => r matches Ok(v) && entry_views(v@) == state@,
            DestroyTargetSpec::Single(path) => {
                let i = entry_at(state@, path@);
                if i < state@.len() {
                    r matches Ok(v) && entry_views(v@) == seq![state@[i]]
                } else {
                    r matches Err(PoolError::NotFound(p)) && p@ == path@
                }
            },
        },
{
    match spec {
        DestroyTargetSpec::All => {
            let all = state.copy();
            Ok(all.worktrees)
        },
        DestroyTargetSpec::Single(path) => match find_entry(state, path) {
            Some(i) => {
                let mut v: Vec<WorktreeEntry> = Vec::new();
                assert(state@[i as int] == state.worktrees@[i as int]@);
                v.push(state.worktrees[i].copy());
                assert(entry_views(v@) =~= seq![state@[i as int]]);
                Ok(v)
            },
            None => Err(PoolError::NotFound(path.clone())),
        },
    }
}

/// What was found out about the contents of a worktree; none where it could
/// not be.
#[derive(Clone, Copy, Debug, PartialEq, Eq, Structural)]
pub struct RepoFacts {
    pub backing_missing: bool,
    pub dirty: Option<bool>,
    pub merged: Option<bool>,
}

/// The facts that a worktree is classified by.
pub open spec fn checks_of(
    rs: Seq<ProcessRecord>,
    dir: Option<Seq<char>>,
    f: RepoFacts,
    default_ref: Seq<char>,
) -> CheckView {
    CheckView {
        processes: shown_processes(rs, dir),
        backing_repo_missing: Some(f.backing_missing),
        dirty: f.dirty,
        merged: if default_ref.len() == 0 {
            None
        } else {
            f.merged
        },
        default_ref,
        proc_scan_error: dir is None,
    }
}

/// A worktree as a destroy sees it, not measured yet.
pub open spec fn target_of(
    e: EntryView,
    rs: Seq<ProcessRecord>,
    dir: Option<Seq<char>>,
    f: RepoFacts,
    default_ref: Seq<char>,
) -> TargetView {
    let c = checks_of(rs, dir, f, default_ref);
    let fs = findings(e.leased, e.lease_holder, owned(e, rs), c);
    TargetView {
        name: e.name,
        path: e.path,
        bytes: 0,
        class: primary(fs),
        classes: classes_of(fs),
        processes: c.processes,
        detail: primary_detail(fs),
    }
}

/// Classifies a worktree. `dir` is its resolved path, `facts` what was found
/// out about its contents.
pub fn classify_target(
    wt: &WorktreeEntry,
    process: &ProcessTable,
    dir: Option<&str>,
    facts: &RepoFacts,
    default_ref: &str,
) -> (r: DestroyTarget)
    ensures
        r@ == target_of(wt@, process.records@, opt_str_view(dir), *facts, default_ref@),
{
    let scan = process.find_in_worktree(dir);
    let proc_scan_error: bool = scan.is_err();
    let processes: Vec<ProcessInfo> = match scan {
        Ok(v) => v,
        Err(_) => {
            let none: Vec<ProcessInfo> = Vec::new();
            assert(info_views(none@) =~= Seq::<ProcessInfoView>::empty());
            none
        },
    };
    let merged: Option<bool> = if default_ref.is_empty() {
        None
    } else {
        facts.merged
    };
    let alive: bool = owner_alive(wt, process);
    let checks = ClassCheckResults {
        processes,
        backing_repo_missing: Some(facts.backing_missing),
        dirty: facts.dirty,
        merged,
        default_ref: default_ref.to_owned(),
        proc_scan_error,
    };
    assert(checks@ =~= checks_of(process.records@, opt_str_view(dir), *facts, default_ref@));
    let c = classify_for_destroy(
        &wt.name,
        &wt.path,
        wt.leased,
        &wt.lease_holder,
        alive,
        &checks,
    );
    DestroyTarget {
        name: c.name,
        path: c.path,
        bytes: 0,
        class: c.class,
        classes: c.classes,
        processes: c.processes,
        detail: c.detail,
    }
}

/// The classes that the options accept.
pub open spec fn class_options(
    allow_leased: bool,
    o: DestroyOptions,
) -> crate::worktree::DestroyOptions {
    crate::worktree::DestroyOptions {
        allow_leased,
        include_leased: o.include_leased,
        include_in_use: o.include_in_use,
        include_unlanded: o.include_unlanded,
    }
}

/// Why the options do not allow removing the target; none where they do.
pub open spec fn gate(t: TargetView, allow_leased: bool, o: DestroyOptions) -> Option<SkipView> {
    if !allow_leased && t.classes.contains(DestroyClass::Leased) {
        Some(
            SkipView {
                target: t,
                needed_flags: seq![],
                leased_bulk: true,
                detail: "leased worktree is never removed by --all"@,
            },
        )
    } else if missing(class_options(allow_leased, o), t.classes).len() > 0 {
        Some(
            SkipView {
                target: t,
                needed_flags: missing(class_options(allow_leased, o), t.classes),
                leased_bulk: false,
                detail: "missing required flags"@,
            },
        )
    } else {
        None
    }
}

/// Whether the options allow removing the target; if not, why.
pub fn allows(target: &DestroyTarget, allow_leased: bool, opts: &DestroyOptions) -> (r: Result<
    (),
    DestroySkip,
>)
    ensures
        match gate(target@, allow_leased, *opts) {
            None => r is Ok,
            Some(k) => r matches Err(s) && s@ == k,
        },
{
    if !allow_leased && target.classes.contains(DestroyClass::Leased) {
        let s = DestroySkip {
            target: target.copy(),
            needed_flags: Vec::new(),
            leased_bulk: true,
            detail: "leased worktree is never removed by --all".to_owned(),
        };
        assert(flag_views(s.needed_flags@) =~= seq![]);
        return Err(s);
    }
    let class_opts = crate::worktree::DestroyOptions {
        allow_leased,
        include_leased: opts.include_leased,
        include_in_use: opts.include_in_use,
        include_unlanded: opts.include_unlanded,
    };
    let missing_flags = class_opts.missing_flags(&target.classes);
    assert(flag_views(missing_flags@).len() == missing_flags.len());
    if missing_flags.len() == 0 {
        Ok(())
    } else {
        Err(
            DestroySkip {
                target: target.copy(),
                needed_flags: missing_flags,
                leased_bulk: false,
                detail: "missing required flags".to_owned(),
            },
        )
    }
}

/// The targets that the options allow, in order.
pub open spec fn allowed(ts: Seq<TargetView>, allow_leased: bool, o: DestroyOptions) -> Seq<
    TargetView,
>
    decreases ts.len(),
{
    if ts.len() == 0 {
        seq![]
    } else {
        let rest = allowed(ts.drop_last(), allow_leased, o);
        if gate(ts.last(), allow_leased, o) is None {
            rest.push(ts.last())
        } else {
            rest
        }
    }
}

/// The targets that the options do not allow, in order, and why.
pub open spec fn refused(ts: Seq<TargetView>, allow_leased: bool, o: DestroyOptions) -> Seq<SkipView>
    decreases ts.len(),
{
    if ts.len() == 0 {
        seq![]
    } else {
        let rest = refused(ts.drop_last(), allow_leased, o);
        match gate(ts.last(), allow_leased, o) {
            None => rest,
            Some(k) => rest.push(k),
        }
    }
}

/// The size of all the targets together.
pub open spec fn total_bytes(ts: Seq<TargetView>) -> nat
    decreases ts.len(),
{
    if ts.len() == 0 {
        0
    } else {
        total_bytes(ts.drop_last()) + ts.last().bytes as nat
    }
}

proof fn lemma_total_prefix(ts: Seq<TargetView>, i: int)
    requires
        0 <= i <= ts.len(),
    ensures
        total_bytes(ts.take(i)) <= total_bytes(ts),
    decreases ts.len() - i,
{
    if i == ts.len() {
        assert(ts.take(i) =~= ts);
    } else {
        lemma_total_prefix(ts, i + 1);
        assert(ts.take(i + 1).drop_last() =~= ts.take(i));
    }
}

proof fn lemma_total_allowed(ts: Seq<TargetView>, allow_leased: bool, o: DestroyOptions)
    ensures
        total_bytes(allowed(ts, allow_leased, o)) <= total_bytes(ts),
    decreases ts.len(),
{
    if ts.len() > 0 {
        lemma_total_allowed(ts.drop_last(), allow_leased, o);
        let rest = allowed(ts.drop_last(), allow_leased, o);
        assert(rest.push(ts.last()).drop_last() =~= rest);
    }
}

/// The size of all the targets together.
pub fn sum_bytes(ts: &Vec<DestroyTarget>) -> (r: u64)
    requires
        total_bytes(target_views(ts@)) <= u64::MAX,
    ensures
        r == total_bytes(target_views(ts@)),
{
    let ghost tv = target_views(ts@);
    let mut sum: u64 = 0;
    let mut i: usize = 0;
    assert(tv.take(0) =~= seq![]);
    while i < ts.len()
        invariant
            i <= ts.len(),
            tv == target_views(ts@),
            total_bytes(tv) <= u64::MAX,
            sum == total_bytes(tv.take(i as int)),
        decreases ts.len() - i,
    {
        proof {
            assert(tv.take(i + 1).drop_last() =~= tv.take(i as int));
            assert(tv.take(i + 1).last() == ts@[i as int]@);
            lemma_total_prefix(tv, i + 1);
        }
        sum = sum + ts[i].bytes;
        i += 1;
    }
    assert(tv.take(ts.len() as int) =~= tv);
    sum
}

/// What a destroy would do: the targets that the options allow are planned,
/// the others skipped. Nothing is destroyed yet.
pub fn plan_destroy(
    spec: &DestroyTargetSpec,
    scope: &str,
    targets: &Vec<DestroyTarget>,
    opts: &DestroyOptions,
) -> (r: DestroyResult)
    requires
        total_bytes(target_views(targets@)) <= u64::MAX,
    ensures
        r.dry_run == opts.dry_run,
        r.all == (*spec is All),
        r.scope@ == scope@,
        target_views(r.planned@) == allowed(target_views(targets@), *spec is Single, *opts),
        skip_views(r.skipped@) == refused(target_views(targets@), *spec is Single, *opts),
        r.planned_bytes == total_bytes(target_views(r.planned@)),
        r.destroyed@.len() == 0,
        r.freed_bytes == 0,
{
    let (allow_leased, all): (bool, bool) = match spec {
        DestroyTargetSpec::Single(_) => (true, false),
        DestroyTargetSpec::All => (false, true),
    };
    let ghost tv = target_views(targets@);
    let mut planned: Vec<DestroyTarget> = Vec::new();
    let mut skipped: Vec<DestroySkip> = Vec::new();
    let mut i: usize = 0;
    proof {
        assert(tv.take(0) =~= seq![]);
        assert(target_views(planned@) =~= seq![]);
        assert(skip_views(skipped@) =~= seq![]);
    }
    while i < targets.len()
        invariant
            i <= targets.len(),
            tv == target_views(targets@),
            target_views(planned@) == allowed(tv.take(i as int), allow_leased, *opts),
            skip_views(skipped@) == refused(tv.take(i as int), allow_leased, *opts),
        decreases targets.len() - i,
    {
        broadcast use {lemma_target_views_push, lemma_skip_views_push};

        proof {
            assert(tv.take(i + 1).drop_last() =~= tv.take(i as int));
            assert(tv.take(i + 1).last() == targets@[i as int]@);
        }
        match allows(&targets[i], allow_leased, opts) {
            Ok(_) => {
                planned.push(targets[i].copy());
            },
            Err(skip) => {
                skipped.push(skip);
            },
        }
        i += 1;
    }
    proof {
        assert(tv.take(targets.len() as int) =~= tv);
        lemma_total_allowed(tv, allow_leased, *opts);
    }
    let planned_bytes: u64 = sum_bytes(&planned);
    DestroyResult {
        dry_run: opts.dry_run,
        all,
        scope: scope.to_owned(),
        planned,
        destroyed: Vec::new(),
        skipped,
        planned_bytes,
        freed_bytes: 0,
    }
}

/// The plan with what came of it: what was destroyed, and what was skipped in
/// the course.
pub fn finish_destroy(
    plan: DestroyResult,
    destroyed: Vec<DestroyTarget>,
    skipped: Vec<DestroySkip>,
) -> (r: DestroyResult)
    requires
        total_bytes(target_views(destroyed@)) <= u64::MAX,
    ensures
        r.dry_run == plan.dry_run,
        r.all == plan.all,
        r.scope == plan.scope,
        r.planned == plan.planned,
        r.planned_bytes == plan.planned_bytes,
        r.destroyed == destroyed,
        r.freed_bytes == total_bytes(target_views(destroyed@)),
        r.skipped@ == plan.skipped@ + skipped@,
{
    let freed_bytes: u64 = sum_bytes(&destroyed);
    let mut all_skipped = plan.skipped;
    let mut more = skipped;
    all_skipped.append(&mut more);
    DestroyResult {
        dry_run: plan.dry_run,
        all: plan.all,
        scope: plan.scope,
        planned: plan.planned,
        destroyed,
        skipped: all_skipped,
        planned_bytes: plan.planned_bytes,
        freed_bytes,
    }
}

// ---------- reserving ----------

/// A worktree that was reserved, and what it was reserved as.
#[derive(Clone, Debug, PartialEq, Eq)]
pub struct Reserved {
    pub reservation: Reservation,
    pub target: DestroyTarget,
}

/// What reserving came to.
#[derive(Clone, Debug, PartialEq, Eq)]
pub struct ReservePhase {
    pub reserved: Vec<Reserved>,
    /// Reserved by another destroy, which is still at it.
    pub skipped: Vec<DestroySkip>,
}

/// The paths of the targets.
pub open spec fn target_paths(ts: Seq<DestroyTarget>) -> Seq<Seq<char>> {
    ts.map_values(|t: DestroyTarget| t.path@)
}

/// The size that was planned for a path: that of the last target there.
pub open spec fn planned_size(ts: Seq<DestroyTarget>, path: Seq<char>) -> Option<u64>
    decreases ts.len(),
{
    if ts.len() == 0 {
        None
    } else if ts.last().path@ == path {
        Some(ts.last().bytes)
    } else {
        planned_size(ts.drop_last(), path)
    }
}

/// The target with the size that was planned for it.
pub open spec fn sized(t: TargetView, planned: Seq<DestroyTarget>) -> TargetView {
    TargetView {
        bytes: match planned_size(planned, t.path) {
            Some(n) => n,
            None => 0,
        },
        ..t
    }
}

/// The worktree at position `i`, as the destroy sees it now.
pub open spec fn current_target(
    s: Seq<EntryView>,
    rs: Seq<ProcessRecord>,
    dirs: Seq<Option<String>>,
    facts: Seq<RepoFacts>,
    default_ref: Seq<char>,
    i: int,
) -> TargetView {
    target_of(s[i], rs, opt_view(dirs[i]), facts[i], default_ref)
}

/// Another destroy that is still at it has reserved the worktree.
pub open spec fn taken(e: EntryView, rs: Seq<ProcessRecord>) -> bool {
    e.destroying && owned(e, rs)
}

/// The worktree at position `i` is to be reserved: it was planned, no other
/// destroy has it, and the options still allow its removal.
pub open spec fn to_reserve(
    s: Seq<EntryView>,
    rs: Seq<ProcessRecord>,
    dirs: Seq<Option<String>>,
    facts: Seq<RepoFacts>,
    default_ref: Seq<char>,
    planned: Seq<Seq<char>>,
    allow_leased: bool,
    o: DestroyOptions,
    i: int,
) -> bool {
    planned.contains(s[i].path) && !taken(s[i], rs) && gate(
        current_target(s, rs, dirs, facts, default_ref, i),
        allow_leased,
        o,
    ) is None
}

/// The positions below `n` that are to be reserved, in order.
pub open spec fn reserve_positions(
    s: Seq<EntryView>,
    rs: Seq<ProcessRecord>,
    dirs: Seq<Option<String>>,
    facts: Seq<RepoFacts>,
    default_ref: Seq<char>,
    planned: Seq<Seq<char>>,
    allow_leased: bool,
    o: DestroyOptions,
    n: nat,
) -> Seq<int>
    decreases n,
{
    if n == 0 {
        seq![]
    } else {
        let rest = reserve_positions(
            s,
            rs,
            dirs,
            facts,
            default_ref,
            planned,
            allow_leased,
            o,
            (n - 1) as nat,
        );
        if to_reserve(s, rs, dirs, facts, default_ref, planned, allow_leased, o, n - 1) {
            rest.push(n - 1)
        } else {
            rest
        }
    }
}

/// The skip of a worktree that another destroy has reserved.
pub open spec fn taken_skip(t: TargetView) -> SkipView {
    SkipView {
        target: t,
        needed_flags: seq![],
        leased_bulk: false,
        detail: "reserved by another destroy"@,
    }
}

/// The skips among the first `n` worktrees, in order.
pub open spec fn taken_skips(
    s: Seq<EntryView>,
    rs: Seq<ProcessRecord>,
    dirs: Seq<Option<String>>,
    facts: Seq<RepoFacts>,
    default_ref: Seq<char>,
    planned: Seq<Seq<char>>,
    n: nat,
) -> Seq<SkipView>
    decreases n,
{
    if n == 0 {
        seq![]
    } else {
        let rest = taken_skips(s, rs, dirs, facts, default_ref, planned, (n - 1) as nat);
        if planned.contains(s[n - 1].path) && taken(s[n - 1], rs) {
            rest.push(taken_skip(current_target(s, rs, dirs, facts, default_ref, n - 1)))
        } else {
            rest
        }
    }
}

/// The reserved worktree is the one at position `i`, with a token for it.
pub open spec fn reserved_as(
    r: Reserved,
    s: Seq<EntryView>,
    t: TargetView,
    i: int,
    pid: i32,
    started_at: i64,
) -> bool {
    crate::reservation::is_destroy_token(r.reservation, s[i], pid, started_at) && r.target@ == t
}

/// A row of positions.
pub open spec fn at(ps: Seq<int>, k: int) -> int {
    ps[k]
}

/// The error of a reservation that could not be made.
pub open spec fn reserve_error(what: Seq<char>, pid: i32) -> GitErrorView {
    GitErrorView {
        command: what,
        message: "failed to determine owner process identity: "@ + undeterminable(pid),
        kind: GitErrorKind::Other,
    }
}

/// The error of a reservation that could not be made, as a pool error.
pub fn reserve_pool_error(what: &str, e: &ReservationError) -> (r: PoolError)
    ensures
        r matches PoolError::Git(g) && g@ == (GitErrorView {
            command: what@,
            message: e.message_spec(),
            kind: GitErrorKind::Other,
        }),
{
    PoolError::Git(GitError::new(what, &e.message(), GitErrorKind::Other))
}

proof fn lemma_planned_size(ts: Seq<DestroyTarget>, path: Seq<char>)
    ensures
        planned_size(ts, path) is Some <==> target_paths(ts).contains(path),
    decreases ts.len(),
{
    let ps = target_paths(ts);
    if ts.len() > 0 {
        let front = ts.drop_last();
        lemma_planned_size(front, path);
        assert(target_paths(front) =~= ps.drop_last());
        if ts.last().path@ == path {
            assert(ps[ts.len() - 1] == path);
        } else if ps.contains(path) {
            let i = choose|i: int| 0 <= i < ps.len() && ps[i] == path;
            assert(target_paths(front)[i] == path);
        } else if target_paths(front).contains(path) {
            let i = choose|i: int| 0 <= i < target_paths(front).len() && target_paths(front)[i] == path;
            assert(ps[i] == path);
        }
    }
}

fn size_planned(ts: &Vec<DestroyTarget>, path: &String) -> (r: Option<u64>)
    ensures
        r == planned_size(ts@, path@),
        r is Some <==> target_paths(ts@).contains(path@),
{
    proof {
        lemma_planned_size(ts@, path@);
    }
    let mut i: usize = ts.len();
    assert(ts@.take(i as int) =~= ts@);
    while i > 0
        invariant
            i <= ts.len(),
            planned_size(ts@.take(i as int), path@) == planned_size(ts@, path@),
            planned_size(ts@, path@) is Some <==> target_paths(ts@).contains(path@),
        decreases i,
    {
        proof {
            assert(ts@.take(i as int).drop_last() =~= ts@.take(i - 1));
            assert(ts@.take(i as int).last() == ts@[i - 1]);
        }
        if same_text(&ts[i - 1].path, path) {
            return Some(ts[i - 1].bytes);
        }
        i -= 1;
    }
    None
}

/// Reserves the planned worktrees for the process `pid`. Each is classified
/// anew by what is known now, `dirs` and `facts`, one for each worktree, and
/// keeps the size that was planned. Where the start time of the process is not
/// known the state is left as it was.
#[verifier::rlimit(60)]
pub fn reserve_destroys(
    state: &mut State,
    process: &ProcessTable,
    dirs: &Vec<Option<String>>,
    facts: &Vec<RepoFacts>,
    default_ref: &str,
    planned: &Vec<DestroyTarget>,
    allow_leased: bool,
    opts: &DestroyOptions,
    pid: i32,
) -> (r: Result<ReservePhase, PoolError>)
    requires
        dirs@.len() == old(state)@.len(),
        facts@.len() == old(state)@.len(),
    ensures
        ({
            let s = old(state)@;
            let rs = process.records@;
            let ps = reserve_positions(
                s,
                rs,
                dirs@,
                facts@,
                default_ref@,
                target_paths(planned@),
                allow_leased,
                *opts,
                s.len(),
            );
            match started_spec(rs, pid) {
                Some(started_at) => {
                    &&& r matches Ok(phase)
                    &&& phase.reserved@.len() == ps.len()
                    &&& forall|k: int|
                        0 <= k < ps.len() ==> reserved_as(
                            phase.reserved@[k],
                            s,
                            sized(
                                current_target(s, rs, dirs@, facts@, default_ref@, at(ps, k)),
                                planned@,
                            ),
                            #[trigger] at(ps, k),
                            pid,
                            started_at,
                        )
                    &&& skip_views(phase.skipped@) == taken_skips(
                        s,
                        rs,
                        dirs@,
                        facts@,
                        default_ref@,
                        target_paths(planned@),
                        s.len(),
                    )
                    &&& final(state)@.len() == s.len()
                    &&& forall|i: int|
                        0 <= i < s.len() ==> #[trigger] final(state)@[i] == if to_reserve(
                            s,
                            rs,
                            dirs@,
                            facts@,
                            default_ref@,
                            target_paths(planned@),
                            allow_leased,
                            *opts,
                            i,
                        ) {
                            destroy_reserved(s[i], pid, started_at)
                        } else {
                            s[i]
                        }
                },
                None => if ps.len() == 0 {
                    &&& r matches Ok(phase)
                    &&& phase.reserved@.len() == 0
                    &&& skip_views(phase.skipped@) == taken_skips(
                        s,
                        rs,
                        dirs@,
                        facts@,
                        default_ref@,
                        target_paths(planned@),
                        s.len(),
                    )
                    &&& final(state)@ == s
                } else {
                    &&& r matches Err(PoolError::Git(g))
                    &&& g@ == reserve_error("reserve destroy"@, pid)
                    &&& final(state)@ == s
                },
            }
        }),
{
    let ghost s = state@;
    let ghost rs = process.records@;
    let ghost pp = target_paths(planned@);
    let ghost started = started_spec(rs, pid);
    let n: usize = state.worktrees.len();
    let mut reserved: Vec<Reserved> = Vec::new();
    let mut skipped: Vec<DestroySkip> = Vec::new();
    let mut i: usize = 0;
    proof {
        assert(skip_views(skipped@) =~= seq![]);
    }
    while i < n
        invariant
            n == state.worktrees.len(),
            n == s.len(),
            s == old(state)@,
            dirs@.len() == n,
            facts@.len() == n,
            i <= n,
            rs == process.records@,
            pp == target_paths(planned@),
            started == started_spec(rs, pid),
            ({
                let ps = reserve_positions(
                    s,
                    rs,
                    dirs@,
                    facts@,
                    default_ref@,
                    pp,
                    allow_leased,
                    *opts,
                    i as nat,
                );
                &&& reserved@.len() == ps.len()
                &&& started is None ==> ps.len() == 0
                &&& forall|k: int|
                    0 <= k < ps.len() ==> reserved_as(
                        reserved@[k],
                        s,
                        sized(
                            current_target(s, rs, dirs@, facts@, default_ref@, at(ps, k)),
                            planned@,
                        ),
                        #[trigger] at(ps, k),
                        pid,
                        started->0,
                    )
            }),
            skip_views(skipped@) == taken_skips(
                s,
                rs,
                dirs@,
                facts@,
                default_ref@,
                pp,
                i as nat,
            ),
            forall|j: int|
                0 <= j < n ==> #[trigger] state@[j] == if j < i && to_reserve(
                    s,
                    rs,
                    dirs@,
                    facts@,
                    default_ref@,
                    pp,
                    allow_leased,
                    *opts,
                    j,
                ) {
                    destroy_reserved(s[j], pid, started->0)
                } else {
                    s[j]
                },
        decreases n - i,
    {
        broadcast use lemma_skip_views_push;

        let ghost ps0 = reserve_positions(
            s,
            rs,
            dirs@,
            facts@,
            default_ref@,
            pp,
            allow_leased,
            *opts,
            i as nat,
        );
        let ghost ps1 = reserve_positions(
            s,
            rs,
            dirs@,
            facts@,
            default_ref@,
            pp,
            allow_leased,
            *opts,
            (i + 1) as nat,
        );
        assert(state@[i as int] == s[i as int]);
        assert(state@[i as int] == state.worktrees@[i as int]@);
        let wt = &state.worktrees[i];
        let bytes: u64 = match size_planned(planned, &wt.path) {
            Some(n) => n,
            None => {
                assert(ps1 == ps0);
                i += 1;
                continue;
            },
        };
        let dir: Option<&str> = match &dirs[i] {
            Some(d) => Some(d.as_str()),
            None => None,
        };
        let current = classify_target(wt, process, dir, &facts[i], default_ref);
        assert(current@ == current_target(s, rs, dirs@, facts@, default_ref@, i as int));
        if wt.destroying && owner_alive(wt, process) {
            let skip = DestroySkip {
                target: current,
                needed_flags: Vec::new(),
                leased_bulk: false,
                detail: "reserved by another destroy".to_owned(),
            };
            assert(flag_views(skip.needed_flags@) =~= seq![]);
            skipped.push(skip);
            assert(ps1 == ps0);
            i += 1;
            continue;
        }
        if allows(&current, allow_leased, opts).is_err() {
            assert(ps1 == ps0);
            i += 1;
            continue;
        }
        let path = wt.path.clone();
        let mut entry = wt.copy();
        let token = Reservation::reserve_destroy(&path, &mut entry, pid, process);
        match token {
            Err(e) => {
                proof {
                    assert(ps1 == ps0.push(i as int));
                    lemma_positions_grow(
                        s,
                        rs,
                        dirs@,
                        facts@,
                        default_ref@,
                        pp,
                        allow_leased,
                        *opts,
                        (i + 1) as nat,
                        n as nat,
                    );
                    lemma_nothing_reserved(
                        s,
                        rs,
                        dirs@,
                        facts@,
                        default_ref@,
                        pp,
                        allow_leased,
                        *opts,
                        i as nat,
                    );
                    assert(state@ =~= s);
                }
                return Err(reserve_pool_error("reserve destroy", &e));
            },
            Ok(reservation) => {
                let ghost before = state.worktrees@;
                let ghost before_view = state@;
                proof {
                    lemma_entry_views_update(before, i as int, entry);
                }
                state.worktrees.set(i, entry);
                let ghost old_reserved = reserved@;
                let mut target = current;
                target.bytes = bytes;
                assert(target@ =~= sized(current@, planned@));
                reserved.push(Reserved { reservation, target });
                proof {
                    assert(state@ == before_view.update(i as int, entry@));
                    assert(ps1 == ps0.push(i as int));
                    assert forall|k: int| 0 <= k < ps1.len() implies reserved_as(
                        reserved@[k],
                        s,
                        sized(
                            current_target(s, rs, dirs@, facts@, default_ref@, at(ps1, k)),
                            planned@,
                        ),
                        #[trigger] at(ps1, k),
                        pid,
                        started->0,
                    ) by {
                        if k < ps0.len() {
                            assert(at(ps1, k) == at(ps0, k));
                            assert(reserved@[k] == old_reserved[k]);
                        }
                    }
                }
            },
        }
        i += 1;
    }
    assert(state@.len() == n);
    proof {
        if started is None {
            lemma_nothing_reserved(
                s,
                rs,
                dirs@,
                facts@,
                default_ref@,
                pp,
                allow_leased,
                *opts,
                n as nat,
            );
            assert(state@ =~= s);
        }
    }
    Ok(ReservePhase { reserved, skipped })
}

proof fn lemma_positions_grow(
    s: Seq<EntryView>,
    rs: Seq<ProcessRecord>,
    dirs: Seq<Option<String>>,
    facts: Seq<RepoFacts>,
    default_ref: Seq<char>,
    planned: Seq<Seq<char>>,
    allow_leased: bool,
    o: DestroyOptions,
    m: nat,
    n: nat,
)
    requires
        m <= n,
    ensures
        reserve_positions(s, rs, dirs, facts, default_ref, planned, allow_leased, o, m).len()
            <= reserve_positions(
            s,
            rs,
            dirs,
            facts,
            default_ref,
            planned,
            allow_leased,
            o,
            n,
        ).len(),
    decreases n,
{
    if m < n {
        lemma_positions_grow(
            s,
            rs,
            dirs,
            facts,
            default_ref,
            planned,
            allow_leased,
            o,
            m,
            (n - 1) as nat,
        );
    }
}

proof fn lemma_nothing_reserved(
    s: Seq<EntryView>,
    rs: Seq<ProcessRecord>,
    dirs: Seq<Option<String>>,
    facts: Seq<RepoFacts>,
    default_ref: Seq<char>,
    planned: Seq<Seq<char>>,
    allow_leased: bool,
    o: DestroyOptions,
    n: nat,
)
    requires
        reserve_positions(s, rs, dirs, facts, default_ref, planned, allow_leased, o, n).len() == 0,
    ensures
        forall|j: int|
            0 <= j < n ==> !(#[trigger] to_reserve(
                s,
                rs,
                dirs,
                facts,
                default_ref,
                planned,
                allow_leased,
                o,
                j,
            )),
{
    assert forall|j: int| 0 <= j < n implies !(#[trigger] to_reserve(
        s,
        rs,
        dirs,
        facts,
        default_ref,
        planned,
        allow_leased,
        o,
        j,
    )) by {
        lemma_positions_grow(
            s,
            rs,
            dirs,
            facts,
            default_ref,
            planned,
            allow_leased,
            o,
            (j + 1) as nat,
            n,
        );
    }
}

// ---------- removing ----------

/// The next step with a reserved worktree.
#[derive(Clone, Debug, PartialEq, Eq)]
pub enum DestroyStep {
    /// The worktree is not in the state any more.
    Gone,
    /// The worktree stays, and why.
    Skip(DestroySkip),
    /// Terminate the processes in it first.
    Terminate(DestroyTarget),
    /// Remove it.
    Remove(DestroyTarget),
    /// It was removed.
    Destroyed(DestroyTarget),
}

/// The skip of a worktree that was reserved.
pub open spec fn plain_skip(t: TargetView, detail: Seq<char>) -> SkipView {
    SkipView { target: t, needed_flags: seq![], leased_bulk: false, detail }
}

fn make_skip(target: DestroyTarget, detail: String) -> (r: DestroySkip)
    ensures
        r@ == plain_skip(target@, detail@),
{
    let r = DestroySkip { target, needed_flags: Vec::new(), leased_bulk: false, detail };
    assert(flag_views(r.needed_flags@) =~= seq![]);
    r
}

/// The state with the owner put back that the reserved worktree had.
pub open spec fn with_restored(s: Seq<EntryView>, r: Reservation) -> Seq<EntryView> {
    let i = entry_at(s, r.worktree@);
    if i < s.len() {
        s.update(i, restored(r, s[i]))
    } else {
        s
    }
}

/// Puts the owner back that a reserved worktree had.
pub fn restore_entry(state: &mut State, reservation: &Reservation)
    ensures
        final(state)@ == with_restored(old(state)@, *reservation),
{
    if let Some(i) = find_entry(state, &reservation.worktree) {
        let ghost before = state.worktrees@;
        assert(state@[i as int] == before[i as int]@);
        let mut entry = state.worktrees[i].copy();
        reservation.restore_original(&mut entry);
        proof {
            lemma_entry_views_update(before, i as int, entry);
        }
        state.worktrees.set(i, entry);
    }
}

/// The reserved worktree as it is seen now, with the owner that it had.
pub open spec fn rechecked(
    r: Reservation,
    planned: TargetView,
    e: EntryView,
    rs: Seq<ProcessRecord>,
    dir: Option<Seq<char>>,
    f: RepoFacts,
    default_ref: Seq<char>,
) -> TargetView {
    TargetView { bytes: planned.bytes, ..target_of(restored(r, e), rs, dir, f, default_ref) }
}

/// Checks a reserved worktree again, under a fresh lock: whether the state
/// still has it, whether the reservation is still held, and whether the
/// options still allow its removal. `dir` and `facts` are what is known of it
/// now. Where it may not go any more its owner is put back.
pub fn recheck_reserved(
    state: &mut State,
    reserved: &Reserved,
    process: &ProcessTable,
    dir: Option<&str>,
    facts: &RepoFacts,
    default_ref: &str,
    allow_leased: bool,
    opts: &DestroyOptions,
) -> (r: DestroyStep)
    ensures
        ({
            let s = old(state)@;
            let token = reserved.reservation;
            let i = entry_at(s, token.worktree@);
            let now = rechecked(
                token,
                reserved.target@,
                s[i],
                process.records@,
                opt_str_view(dir),
                *facts,
                default_ref@,
            );
            if i >= s.len() {
                r is Gone && final(state)@ == s
            } else if !still_held(token, s[i]) {
                &&& r matches DestroyStep::Skip(k)
                &&& k@ == plain_skip(reserved.target@, "re-acquired during pre-destroy hook"@)
                &&& final(state)@ == s
            } else if gate(now, allow_leased, *opts) is Some {
                &&& r matches DestroyStep::Skip(k)
                &&& k@ == plain_skip(now, "re-classified as not removable"@)
                &&& final(state)@ == with_restored(s, token)
            } else if now.classes.contains(DestroyClass::InUse) && opts.include_in_use {
                r matches DestroyStep::Terminate(t) && t@ == now && final(state)@ == s
            } else {
                r matches DestroyStep::Remove(t) && t@ == now && final(state)@ == s
            }
        }),
{
    let token = &reserved.reservation;
    let i: usize = match find_entry(state, &token.worktree) {
        Some(i) => i,
        None => return DestroyStep::Gone,
    };
    assert(state@[i as int] == state.worktrees@[i as int]@);
    if !token.matches(&state.worktrees[i]) {
        return DestroyStep::Skip(
            make_skip(reserved.target.copy(), "re-acquired during pre-destroy hook".to_owned()),
        );
    }
    let mut entry = state.worktrees[i].copy();
    token.restore_original(&mut entry);
    let mut current = classify_target(&entry, process, dir, facts, default_ref);
    current.bytes = reserved.target.bytes;
    if allows(&current, allow_leased, opts).is_err() {
        restore_entry(state, token);
        return DestroyStep::Skip(
            make_skip(current, "re-classified as not removable".to_owned()),
        );
    }
    if current.classes.contains(DestroyClass::InUse) && opts.include_in_use {
        DestroyStep::Terminate(current)
    } else {
        DestroyStep::Remove(current)
    }
}

/// What follows on terminating the processes in a reserved worktree: its
/// removal, unless that failed or some of them are still there.
pub fn after_termination(
    state: &mut State,
    reservation: &Reservation,
    current: DestroyTarget,
    outcome: &Result<(), String>,
    survivors: bool,
) -> (r: DestroyStep)
    ensures
        match *outcome {
            Err(e) => {
                &&& r matches DestroyStep::Skip(k)
                &&& k@ == plain_skip(
                    current@,
                    "could not terminate worktree processes: "@ + e@,
                )
                &&& final(state)@ == with_restored(old(state)@, *reservation)
            },
            Ok(_) => if survivors {
                &&& r matches DestroyStep::Skip(k)
                &&& k@ == plain_skip(
                    current@,
                    "worktree processes still running after termination"@,
                )
                &&& final(state)@ == with_restored(old(state)@, *reservation)
            } else {
                r == DestroyStep::Remove(current) && final(state)@ == old(state)@
            },
        },
{
    match outcome {
        Err(e) => {
            restore_entry(state, reservation);
            let mut detail = "could not terminate worktree processes: ".to_owned();
            detail.append(e);
            DestroyStep::Skip(make_skip(current, detail))
        },
        Ok(_) => {
            if survivors {
                restore_entry(state, reservation);
                DestroyStep::Skip(
                    make_skip(
                        current,
                        "worktree processes still running after termination".to_owned(),
                    ),
                )
            } else {
                DestroyStep::Remove(current)
            }
        },
    }
}

/// What follows on removing a reserved worktree with git.
pub fn after_removal(
    state: &mut State,
    reservation: &Reservation,
    current: DestroyTarget,
    outcome: &Result<(), GitError>,
) -> (r: DestroyStep)
    ensures
        match *outcome {
            Err(e) => {
                &&& r matches DestroyStep::Skip(k)
                &&& k@ == plain_skip(current@, e.message_spec())
                &&& final(state)@ == with_restored(old(state)@, *reservation)
            },
            Ok(_) => r == DestroyStep::Destroyed(current) && final(state)@ == old(state)@,
        },
{
    match outcome {
        Err(e) => {
            restore_entry(state, reservation);
            DestroyStep::Skip(make_skip(current, e.text()))
        },
        Ok(_) => DestroyStep::Destroyed(current),
    }
}

/// The entries whose path is not among `removed`, in order.
pub open spec fn without_paths(s: Seq<EntryView>, removed: Seq<Seq<char>>) -> Seq<EntryView>
    decreases s.len(),
{
    if s.len() == 0 {
        seq![]
    } else {
        let rest = without_paths(s.drop_last(), removed);
        if removed.contains(s.last().path) {
            rest
        } else {
            rest.push(s.last())
        }
    }
}

/// Drops the entries of worktrees that were removed.
pub fn drop_removed(state: &mut State, removed: &Vec<String>)
    ensures
        final(state)@ == without_paths(old(state)@, views(removed@)),
{
    let ghost all = state@;
    let mut out: Vec<WorktreeEntry> = Vec::new();
    let mut i: usize = 0;
    assert(entry_views(out@) =~= without_paths(all.take(0), views(removed@)));
    while i < state.worktrees.len()
        invariant
            i <= state.worktrees.len(),
            all == entry_views(state.worktrees@),
            entry_views(out@) == without_paths(all.take(i as int), views(removed@)),
        decreases state.worktrees.len() - i,
    {
        broadcast use lemma_entry_views_push;

        proof {
            assert(all.take(i + 1).drop_last() =~= all.take(i as int));
            assert(all.take(i + 1).last() == state.worktrees@[i as int]@);
        }
        if !lists(removed, &state.worktrees[i].path) {
            out.push(state.worktrees[i].copy());
        }
        i += 1;
    }
    assert(all.take(all.len() as int) =~= all);
    state.worktrees = out;
}

// ---------- the worktree on disk ----------

/// A directory that may be deleted as a whole: not an empty path, not a root.
pub open spec fn deletable(path: Seq<char>) -> bool {
    !(path.len() == 0 || path == "/"@ || path == "\\"@ || ends(path, ":\\"@))
}

/// Whether a directory may be deleted as a whole.
pub fn removable_path(path: &str) -> (r: bool)
    ensures
        r == deletable(path@),
{
    !(path.is_empty() || same_text(path, "/") || same_text(path, "\\") || ends_with(path, ":\\"))
}

/// The directory that the `.git` file of a worktree points to; none where the
/// file does not point anywhere.
pub open spec fn gitdir_spec(worktree: Seq<char>, contents: Seq<char>) -> Option<Seq<char>> {
    if begins(contents, "gitdir:"@) {
        Some(join_spec(worktree, trimmed(contents.skip("gitdir:"@.len() as int))))
    } else {
        None
    }
}

/// The directory that the `.git` file of a worktree points to.
pub fn gitdir_of(worktree: &str, contents: &str) -> (r: Option<String>)
    ensures
        opt_view(r) == gitdir_spec(worktree@, contents@),
{
    match after_prefix(contents, "gitdir:") {
        Some(rest) => Some(join(worktree, &trim(&rest))),
        None => None,
    }
}

/// Whether the backing repository of a worktree is gone: its `.git` file can
/// be read, and what it points to does not exist. `gitdir` is what it points
/// to, none where it cannot be read or points nowhere.
pub fn backing_repository_missing(gitdir: Option<&str>, gitdir_exists: bool) -> (r: bool)
    ensures
        r == (gitdir is Some && !gitdir_exists),
{
    gitdir.is_some() && !gitdir_exists
}

// ---------- laws ----------

/// A leased worktree never goes unless it was named, whatever the flags.
pub proof fn law_leased_needs_a_name(t: TargetView, o: DestroyOptions)
    requires
        t.classes.contains(DestroyClass::Leased),
    ensures
        gate(t, false, o) is Some,
        gate(t, true, o) is None ==> o.include_leased,
{
}

/// Without any flag, only a worktree that nothing stands against goes.
pub proof fn law_no_flags_only_disposable(t: TargetView, allow_leased: bool, o: DestroyOptions)
    requires
        !o.include_unlanded,
        !o.include_in_use,
        !o.include_leased,
        gate(t, allow_leased, o) is None,
    ensures
        forall|c: DestroyClass| c != DestroyClass::Disposable ==> !t.classes.contains(c),
{
    let m = missing(class_options(allow_leased, o), t.classes);
    assert(m.len() == 0);
    crate::worktree::law_no_missing_flag(class_options(allow_leased, o), t.classes);
    assert forall|c: DestroyClass| c != DestroyClass::Disposable implies !t.classes.contains(c) by {}
}

/// Each target is either planned or skipped: planned exactly if nothing stands
/// against it, else skipped for the reason. Nothing else is planned or
/// skipped, and all of them are counted once.
pub proof fn law_planned_or_skipped(
    ts: Seq<TargetView>,
    allow_leased: bool,
    o: DestroyOptions,
    t: TargetView,
    k: SkipView,
)
    ensures
        allowed(ts, allow_leased, o).len() + refused(ts, allow_leased, o).len() == ts.len(),
        allowed(ts, allow_leased, o).contains(t) <==> ts.contains(t) && gate(t, allow_leased, o)
            is None,
        refused(ts, allow_leased, o).contains(k) <==> ts.contains(k.target) && gate(
            k.target,
            allow_leased,
            o,
        ) == Some(k),
    decreases ts.len(),
{
    let a = allowed(ts, allow_leased, o);
    let r = refused(ts, allow_leased, o);
    if ts.len() > 0 {
        let front = ts.drop_last();
        let last = ts.last();
        let a0 = allowed(front, allow_leased, o);
        let r0 = refused(front, allow_leased, o);
        law_planned_or_skipped(front, allow_leased, o, t, k);
        lemma_contains_push(front, last, t);
        lemma_contains_push(front, last, k.target);
        assert(front.push(last) =~= ts);
        match gate(last, allow_leased, o) {
            None => {
                lemma_contains_push(a0, last, t);
            },
            Some(g) => {
                assert(g.target == last);
                lemma_contains_push(r0, g, k);
            },
        }
    }
}

/// Reserving and giving up again leaves a worktree as it was.
pub proof fn law_skip_restores(
    s: Seq<EntryView>,
    i: int,
    r: Reservation,
    pid: i32,
    started_at: i64,
)
    requires
        0 <= i < s.len(),
        i == entry_at(s, s[i].path),
        !s[i].destroying,
        crate::reservation::is_destroy_token(r, s[i], pid, started_at),
    ensures
        with_restored(s.update(i, destroy_reserved(s[i], pid, started_at)), r) == s,
{
    let e = destroy_reserved(s[i], pid, started_at);
    crate::pool::lemma_entry_at_update(s, i, e, s[i].path);
    assert(s.update(i, e).update(i, s[i]) =~= s);
}

/// A worktree that somebody acquired while the hooks ran is not removed: the
/// destroy has lost its reservation.
pub proof fn law_reacquired_is_kept(
    e: EntryView,
    r: Reservation,
    pid: i32,
    started_at: i64,
    lease: crate::lease::LeaseView,
    other: i32,
    other_started: i64,
)
    requires
        pid != 0,
        crate::reservation::is_destroy_token(r, e, pid, started_at),
        other != pid || other_started != started_at,
    ensures
        !still_held(r, crate::lease::stamped(destroy_reserved(e, pid, started_at), lease)),
        !still_held(
            r,
            EntryView { owner_pid: other, owner_started_at: other_started, ..destroy_reserved(
                e,
                pid,
                started_at,
            ) },
        ),
{
}

/// Dropping entries keeps exactly the others, in order.
pub proof fn law_drop_keeps_others(s: Seq<EntryView>, removed: Seq<Seq<char>>)
    ensures
        without_paths(s, removed) == s.filter(|e: EntryView| !removed.contains(e.path)),
    decreases s.len(),
{
    reveal(Seq::filter);
    if s.len() > 0 {
        law_drop_keeps_others(s.drop_last(), removed);
    } else {
        assert(without_paths(s, removed) =~= s.filter(|e: EntryView| !removed.contains(e.path)));
    }
}

/// Nothing stands against the removal of a target exactly if each class of
/// risk that it has comes with its own flag: a lease with its flag and the
/// worktree named, a use with its flag, work that is dirty, unmerged or
/// unverified with its flag. No flag stands in for another.
pub proof fn law_each_risk_needs_its_flag(t: TargetView, allow_leased: bool, o: DestroyOptions)
    ensures
        gate(t, allow_leased, o) is None <==> {
            &&& t.classes.contains(DestroyClass::Leased) ==> allow_leased && o.include_leased
            &&& t.classes.contains(DestroyClass::InUse) ==> o.include_in_use
            &&& t.classes.contains(DestroyClass::Dirty) ==> o.include_unlanded
            &&& t.classes.contains(DestroyClass::Unmerged) ==> o.include_unlanded
            &&& t.classes.contains(DestroyClass::Unverified) ==> o.include_unlanded
        },
{
    crate::worktree::law_no_missing_flag(class_options(allow_leased, o), t.classes);
}

/// A target that is skipped names the flags that would allow its removal; with
/// them added nothing stands against it. A leased worktree that was not named
/// has no such flags.
pub proof fn law_skip_names_what_is_missing(t: TargetView, allow_leased: bool, o: DestroyOptions)
    ensures
        gate(t, allow_leased, o) matches Some(k) ==> {
            &&& k.target == t
            &&& k.leased_bulk <==> !allow_leased && t.classes.contains(DestroyClass::Leased)
            &&& k.leased_bulk ==> k.needed_flags.len() == 0
            &&& !k.leased_bulk ==> {
                &&& k.needed_flags.len() > 0
                &&& k.needed_flags.contains("--include-leased"@) <==> t.classes.contains(
                    DestroyClass::Leased,
                ) && !o.include_leased
                &&& k.needed_flags.contains("--include-in-use"@) <==> t.classes.contains(
                    DestroyClass::InUse,
                ) && !o.include_in_use
                &&& k.needed_flags.contains("--include-unlanded"@) <==> (t.classes.contains(
                    DestroyClass::Dirty,
                ) || t.classes.contains(DestroyClass::Unmerged) || t.classes.contains(
                    DestroyClass::Unverified,
                )) && !o.include_unlanded
                &&& gate(
                    t,
                    allow_leased,
                    DestroyOptions {
                        include_leased: o.include_leased || k.needed_flags.contains(
                            "--include-leased"@,
                        ),
                        include_in_use: o.include_in_use || k.needed_flags.contains(
                            "--include-in-use"@,
                        ),
                        include_unlanded: o.include_unlanded || k.needed_flags.contains(
                            "--include-unlanded"@,
                        ),
                        ..o
                    },
                ) is None
            }
        },
{
    if let Some(k) = gate(t, allow_leased, o) {
        crate::worktree::law_missing_flags_are_named(class_options(allow_leased, o), t.classes);
        law_each_risk_needs_its_flag(t, allow_leased, o);
        let more = DestroyOptions {
            include_leased: o.include_leased || k.needed_flags.contains("--include-leased"@),
            include_in_use: o.include_in_use || k.needed_flags.contains("--include-in-use"@),
            include_unlanded: o.include_unlanded || k.needed_flags.contains("--include-unlanded"@),
            ..o
        };
        law_each_risk_needs_its_flag(t, allow_leased, more);
    }
}

/// The targets that go are those that nothing stands against, and those that
/// stay are the others, each with what stands against it; both in order.
pub proof fn law_plan_parts_the_targets(ts: Seq<TargetView>, allow_leased: bool, o: DestroyOptions)
    ensures
        allowed(ts, allow_leased, o) == ts.filter(|t: TargetView| gate(t, allow_leased, o) is None),
        refused(ts, allow_leased, o) == ts.filter_map(|t: TargetView| gate(t, allow_leased, o)),
    decreases ts.len(),
{
    reveal(Seq::filter);
    reveal(Seq::filter_map);
    if ts.len() > 0 {
        law_plan_parts_the_targets(ts.drop_last(), allow_leased, o);
    }
}

/// The size of a row of targets is the sum of their sizes.
pub proof fn law_target_sizes_add_up(a: Seq<TargetView>, b: Seq<TargetView>, t: TargetView)
    ensures
        total_bytes(seq![]) == 0,
        total_bytes(seq![t]) == t.bytes,
        total_bytes(a + b) == total_bytes(a) + total_bytes(b),
    decreases b.len(),
{
    assert(seq![t].drop_last() =~= seq![]);
    if b.len() == 0 {
        assert(a + b =~= a);
    } else {
        law_target_sizes_add_up(a, b.drop_last(), t);
        assert((a + b).drop_last() =~= a + b.drop_last());
    }
}

/// The classes of a worktree come from what is known of it: its lease, a live
/// owner or a process, and what git says of its work. What cannot be told
/// counts against it.
pub proof fn law_target_has_the_classes_of_its_facts(
    e: EntryView,
    rs: Seq<ProcessRecord>,
    dir: Option<Seq<char>>,
    f: RepoFacts,
    default_ref: Seq<char>,
)
    ensures
        ({
            let t = target_of(e, rs, dir, f, default_ref);
            let known = !f.backing_missing && f.dirty is Some;
            &&& t.name == e.name
            &&& t.path == e.path
            &&& t.classes.contains(DestroyClass::Leased) <==> e.leased
            &&& t.classes.contains(DestroyClass::InUse) <==> owned(e, rs) || dir is None
                || running_in(rs, dir->0).len() > 0
            &&& t.classes.contains(DestroyClass::Dirty) <==> !f.backing_missing && f.dirty == Some(
                true,
            )
            &&& t.classes.contains(DestroyClass::Unmerged) <==> known && default_ref.len() > 0
                && f.merged == Some(false)
            &&& t.classes.contains(DestroyClass::Unverified) <==> !known || default_ref.len() == 0
                || f.merged is None
            &&& t.class == DestroyClass::Leased <==> e.leased
            &&& t.class == DestroyClass::InUse <==> !e.leased && t.classes.contains(
                DestroyClass::InUse,
            )
            &&& t.class != DestroyClass::Disposable ==> t.classes.contains(t.class)
            &&& t.class == DestroyClass::Disposable <==> forall|c: DestroyClass|
                !(#[trigger] t.classes.contains(c))
            &&& e.leased && e.lease_holder.len() > 0 ==> t.detail == "held by "@ + e.lease_holder
            &&& dir matches Some(d) ==> t.processes == running_in(rs, d)
            &&& dir is None ==> t.processes.len() == 0
        }),
{
    let c = checks_of(rs, dir, f, default_ref);
    crate::worktree::law_classes(e.leased, e.lease_holder, owned(e, rs), c);
    crate::worktree::law_primary_class(e.leased, e.lease_holder, owned(e, rs), c);
    crate::worktree::law_primary_detail_says_why(e.leased, e.lease_holder, owned(e, rs), c);
    let t = target_of(e, rs, dir, f, default_ref);
    if t.class == DestroyClass::Disposable {
        assert forall|c: DestroyClass| !(#[trigger] t.classes.contains(c)) by {}
    } else {
        assert(t.classes.contains(t.class));
    }
}

/// A worktree goes without any flag exactly if it is known to be unleased,
/// without a live owner or a process, clean, and merged into the default ref.
pub proof fn law_disposable_goes_without_flags(
    e: EntryView,
    rs: Seq<ProcessRecord>,
    dir: Option<Seq<char>>,
    f: RepoFacts,
    default_ref: Seq<char>,
    allow_leased: bool,
    o: DestroyOptions,
)
    requires
        !o.include_unlanded,
        !o.include_in_use,
        !o.include_leased,
    ensures
        gate(target_of(e, rs, dir, f, default_ref), allow_leased, o) is None <==> {
            &&& !e.leased
            &&& !owned(e, rs)
            &&& dir matches Some(d)
            &&& running_in(rs, d).len() == 0
            &&& !f.backing_missing
            &&& f.dirty == Some(false)
            &&& default_ref.len() > 0
            &&& f.merged == Some(true)
        },
{
    law_target_has_the_classes_of_its_facts(e, rs, dir, f, default_ref);
    law_each_risk_needs_its_flag(target_of(e, rs, dir, f, default_ref), allow_leased, o);
}

/// A worktree is reserved exactly if it was planned, no destroy that is still
/// at it has it, and nothing stands against its removal now. Each is reserved
/// once, in order.
pub proof fn law_reserved_exactly(
    s: Seq<EntryView>,
    rs: Seq<ProcessRecord>,
    dirs: Seq<Option<String>>,
    facts: Seq<RepoFacts>,
    default_ref: Seq<char>,
    planned: Seq<Seq<char>>,
    allow_leased: bool,
    o: DestroyOptions,
    n: nat,
    i: int,
)
    ensures
        ({
            let ps = reserve_positions(
                s,
                rs,
                dirs,
                facts,
                default_ref,
                planned,
                allow_leased,
                o,
                n,
            );
            let t = target_of(s[i], rs, opt_view(dirs[i]), facts[i], default_ref);
            &&& ps.contains(i) <==> 0 <= i < n && planned.contains(s[i].path) && !(s[i].destroying
                && owned(s[i], rs)) && gate(t, allow_leased, o) is None
            &&& forall|j: int, k: int| 0 <= j < k < ps.len() ==> ps[j] < ps[k]
            &&& forall|j: int| 0 <= j < ps.len() ==> 0 <= #[trigger] ps[j] < n
        }),
    decreases n,
{
    if n > 0 {
        let rest = reserve_positions(
            s,
            rs,
            dirs,
            facts,
            default_ref,
            planned,
            allow_leased,
            o,
            (n - 1) as nat,
        );
        law_reserved_exactly(
            s,
            rs,
            dirs,
            facts,
            default_ref,
            planned,
            allow_leased,
            o,
            (n - 1) as nat,
            i,
        );
        lemma_contains_push(rest, n - 1, i);
    }
}

/// A planned worktree is skipped in the first phase exactly if another destroy
/// that is still at it has it, and then it says so.
pub proof fn law_taken_is_skipped(
    s: Seq<EntryView>,
    rs: Seq<ProcessRecord>,
    dirs: Seq<Option<String>>,
    facts: Seq<RepoFacts>,
    default_ref: Seq<char>,
    planned: Seq<Seq<char>>,
    n: nat,
)
    ensures
        ({
            let ks = taken_skips(s, rs, dirs, facts, default_ref, planned, n);
            &&& forall|i: int|
                0 <= i < n && planned.contains((#[trigger] s[i]).path) && s[i].destroying && owned(
                    s[i],
                    rs,
                ) ==> ks.contains(
                    SkipView {
                        target: target_of(s[i], rs, opt_view(dirs[i]), facts[i], default_ref),
                        needed_flags: seq![],
                        leased_bulk: false,
                        detail: "reserved by another destroy"@,
                    },
                )
            &&& (forall|i: int|
                0 <= i < n ==> !(planned.contains((#[trigger] s[i]).path) && s[i].destroying
                    && owned(s[i], rs))) ==> ks.len() == 0
            &&& ks.len() <= n
        }),
    decreases n,
{
    if n > 0 {
        let rest = taken_skips(s, rs, dirs, facts, default_ref, planned, (n - 1) as nat);
        let ks = taken_skips(s, rs, dirs, facts, default_ref, planned, n);
        law_taken_is_skipped(s, rs, dirs, facts, default_ref, planned, (n - 1) as nat);
        assert forall|i: int|
            0 <= i < n && planned.contains((#[trigger] s[i]).path) && s[i].destroying && owned(
                s[i],
                rs,
            ) implies ks.contains(
            SkipView {
                target: target_of(s[i], rs, opt_view(dirs[i]), facts[i], default_ref),
                needed_flags: seq![],
                leased_bulk: false,
                detail: "reserved by another destroy"@,
            },
        ) by {
            let k = SkipView {
                target: target_of(s[i], rs, opt_view(dirs[i]), facts[i], default_ref),
                needed_flags: seq![],
                leased_bulk: false,
                detail: "reserved by another destroy"@,
            };
            if taken(s[n - 1], rs) && planned.contains(s[n - 1].path) {
                lemma_contains_push(
                    rest,
                    taken_skip(current_target(s, rs, dirs, facts, default_ref, n - 1)),
                    k,
                );
            }
        }
    }
}

/// A reserved worktree has the size that was planned for it: that of a planned
/// target with its path, and of the last of them.
pub proof fn law_planned_size_is_kept(ts: Seq<DestroyTarget>, t: TargetView, i: int)
    requires
        0 <= i < ts.len(),
        ts[i].path@ == t.path,
        forall|j: int| i < j < ts.len() ==> (#[trigger] ts[j]).path@ != t.path,
    ensures
        sized(t, ts) == (TargetView { bytes: ts[i].bytes, ..t }),
    decreases ts.len(),
{
    if i < ts.len() - 1 {
        let front = ts.drop_last();
        assert(ts[ts.len() - 1].path@ != t.path);
        assert(front[i] == ts[i]);
        assert forall|j: int| i < j < front.len() implies (#[trigger] front[j]).path@ != t.path by {
            assert(front[j] == ts[j]);
        }
        law_planned_size_is_kept(front, t, i);
        assert(planned_size(ts, t.path) == planned_size(front, t.path));
    }
}

/// A reserved worktree is looked at again as if it had not been reserved: with
/// the owner that it had, and with the size that was planned.
pub proof fn law_own_reservation_does_not_count(
    r: Reservation,
    planned: TargetView,
    e: EntryView,
    pid: i32,
    started_at: i64,
    rs: Seq<ProcessRecord>,
    dir: Option<Seq<char>>,
    f: RepoFacts,
    default_ref: Seq<char>,
)
    requires
        !e.destroying,
        crate::reservation::is_destroy_token(r, e, pid, started_at),
    ensures
        rechecked(r, planned, destroy_reserved(e, pid, started_at), rs, dir, f, default_ref) == (
        TargetView { bytes: planned.bytes, ..target_of(e, rs, dir, f, default_ref) }),
{
    crate::reservation::law_restore_undoes_reserve(r, e, pid, started_at);
}

/// Giving a reservation up changes only the entry at its path, and of that
/// only the reservation.
pub proof fn law_giving_up_touches_only_its_entry(s: Seq<EntryView>, r: Reservation, i: int)
    requires
        0 <= i < s.len(),
    ensures
        ({
            let t = with_restored(s, r);
            &&& t.len() == s.len()
            &&& s[i].path != r.worktree@ ==> t[i] == s[i]
            &&& t[i].same_lease(s[i])
            &&& t[i].path == s[i].path
            &&& t[i].name == s[i].name
        }),
{
    crate::pool::lemma_entry_at(s, r.worktree@);
}

/// A directory may be deleted as a whole exactly if its path is not empty and
/// not a root: neither a separator alone nor a drive.
pub proof fn law_deletable_unless_a_root(path: Seq<char>)
    ensures
        deletable(path) <==> {
            &&& path.len() > 0
            &&& path.len() == 1 ==> path[0] != '/' && path[0] != '\\'
            &&& path.len() >= 2 ==> !(path[path.len() - 2] == ':' && path[path.len() - 1] == '\\')
        },
{
    reveal_strlit("/");
    reveal_strlit("\\");
    reveal_strlit(":\\");
    assert("/"@ =~= seq!['/']);
    assert("\\"@ =~= seq!['\\']);
    assert(":\\"@ =~= seq![':', '\\']);
    if path.len() == 1 {
        assert(path =~= seq![path[0]]);
        assert(seq!['/'][0] == '/' && seq!['\\'][0] == '\\');
    }
    if path.len() >= 2 {
        let tail = path.skip(path.len() - 2);
        assert(tail =~= seq![path[path.len() - 2], path[path.len() - 1]]);
        assert(seq![':', '\\'][0] == ':' && seq![':', '\\'][1] == '\\');
        assert(tail[0] == path[path.len() - 2] && tail[1] == path[path.len() - 1]);
    }
}

/// A `.git` file points to the directory that follows its keyword, seen from
/// the worktree; a file without the keyword points nowhere.
pub proof fn law_gitdir_follows_its_keyword(worktree: Seq<char>, target: Seq<char>, text: Seq<char>)
    ensures
        gitdir_spec(worktree, "gitdir:"@ + target) == Some(join_spec(worktree, trimmed(target))),
        gitdir_spec(worktree, text) is Some <==> begins(text, "gitdir:"@),
{
    let all = "gitdir:"@ + target;
    assert(all.take("gitdir:"@.len() as int) =~= "gitdir:"@);
    assert(all.skip("gitdir:"@.len() as int) =~= target);
}

/// A reservation is for the worktree that was reserved, and holds right after
/// it was made.
pub proof fn law_reservation_is_for_its_worktree(
    r: Reserved,
    s: Seq<EntryView>,
    t: TargetView,
    i: int,
    pid: i32,
    started_at: i64,
)
    requires
        reserved_as(r, s, t, i, pid, started_at),
    ensures
        r.target@ == t,
        r.reservation.worktree@ == s[i].path,
        still_held(r.reservation, destroy_reserved(s[i], pid, started_at)),
        !s[i].destroying ==> restored(r.reservation, destroy_reserved(s[i], pid, started_at)) == s[i],
{
}

} // verus!
