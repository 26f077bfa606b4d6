//! Command results: one structured result per command, and the JSON value
//! that it stands for.
//!
//! Every key of a value is always there. Interactive commands have no value,
//! so that nothing of theirs reaches the output.

use vstd::prelude::*;
use vstd::string::*;

use crate::destroy::{
    skip_views, target_views, DestroyResult, DestroySkip, DestroyTarget, SkipView, TargetView,
};
use crate::gc::GcResult;
use crate::json::{
    bool_value, distinct, int_value, list_value, members, null_value, object_value, plain, text_value,
    tree_of, trees, uint_value, Tree,
};
use crate::lease::LeaseInfo;
use crate::pool::WorktreeStatus;
use crate::process::{info_views, ProcessInfo, ProcessInfoView};
use crate::prune::PruneResult;
use crate::text::{opt_view, views};
use crate::time::{nano_text, rfc3339, rfc3339_text, serialize, zero_time, Timestamp};
use crate::worktree::flag_views;

verus! {

// ---------- the types ----------

/// A process found inside a worktree.
#[derive(Clone, Debug, PartialEq, Eq)]
pub struct ProcessJson {
    pub pid: i32,
    pub name: String,
}

impl View for ProcessJson {
    type V = ProcessInfoView;

    open spec fn view(&self) -> ProcessInfoView {
        ProcessInfoView { pid: self.pid, name: self.name@ }
    }
}

/// The views of a list of processes.
pub open spec fn process_views(v: Seq<ProcessJson>) -> Seq<ProcessInfoView> {
    v.map_values(|p: ProcessJson| p@)
}

/// The status of one worktree. Without a lease its two texts are empty and
/// its instants are missing. A permanent lease has no end.
#[derive(Clone, Debug, PartialEq, Eq)]
pub struct StatusJson {
    pub name: String,
    pub path: String,
    pub status: String,
    pub lease_id: String,
    pub lease_holder: String,
    pub leased_at: Option<String>,
    pub processes: Vec<ProcessJson>,
    pub expires_at: Option<String>,
    pub stale: bool,
}

/// The result of a return.
#[derive(Clone, Debug, PartialEq, Eq)]
pub struct ReturnResult {
    pub path: String,
    pub returned: bool,
    pub aborted: bool,
    pub terminated: Vec<ProcessJson>,
    pub warnings: Vec<String>,
}

impl Default for ReturnResult {
    fn default() -> (r: ReturnResult)
        ensures
            r.path@ == Seq::<char>::empty(),
            !r.returned,
            !r.aborted,
            r.terminated@.len() == 0,
            r.warnings@.len() == 0,
    {
        ReturnResult {
            path: String::new(),
            returned: false,
            aborted: false,
            terminated: Vec::new(),
            warnings: Vec::new(),
        }
    }
}

/// The result of a destroy.
#[derive(Clone, Debug, PartialEq, Eq)]
pub struct DestroyResultJson {
    pub dry_run: bool,
    pub all: bool,
    pub scope: String,
    pub planned: Vec<DestroyTargetJson>,
    pub destroyed: Vec<DestroyTargetJson>,
    pub skipped: Vec<DestroySkipJson>,
    pub planned_bytes: u64,
    pub freed_bytes: u64,
}

/// One worktree of a destroy.
#[derive(Clone, Debug, PartialEq, Eq)]
pub struct DestroyTargetJson {
    pub name: String,
    pub path: String,
    pub class: String,
    pub bytes: u64,
    pub detail: String,
}

/// One worktree that a destroy left in place.
#[derive(Clone, Debug, PartialEq, Eq)]
pub struct DestroySkipJson {
    pub target: DestroyTargetJson,
    pub needed_flags: Vec<String>,
    pub detail: String,
}

/// The result of a prune, in numbers.
#[derive(Clone, Debug, PartialEq, Eq)]
pub struct PruneResultJson {
    pub dry_run: bool,
    pub orphans_included: bool,
    pub global: bool,
    pub pool_count: u32,
    pub candidates: u32,
    pub pruned: u32,
    pub skipped: u32,
    /// Worktrees whose removal failed. They are tried again.
    pub errors: u32,
    pub reclaimable_bytes: u64,
    pub freed_bytes: u64,
}

/// The result of a reclaim, in numbers.
#[derive(Clone, Debug, PartialEq, Eq)]
pub struct GcResultJson {
    pub dry_run: bool,
    pub global: bool,
    pub pool_count: u32,
    pub candidates: u32,
    pub reclaimed: u32,
    pub skipped: u32,
    pub reclaimable_bytes: u64,
    pub freed_bytes: u64,
    pub orphans_included: bool,
    /// Worktrees whose removal failed. They are tried again.
    pub errors: u32,
}

/// What a prune or a reclaim went over.
#[derive(Clone, Copy, Debug, PartialEq, Eq)]
pub struct SweepScope {
    /// Worktrees whose repository is gone were candidates too.
    pub orphans_included: bool,
    /// All pools of the user, not only that of the repository.
    pub global: bool,
    pub pool_count: u32,
}

/// The one structured result of a command.
#[derive(Clone, Debug, PartialEq, Eq)]
pub enum CommandResult {
    Get(GetResult),
    Enter,
    Return(ReturnResult),
    Status(Vec<WorktreeStatus>),
    Prune(PruneResult, SweepScope),
    Gc(GcResult, SweepScope),
    Destroy(DestroyResult),
}

/// The result of a get.
#[derive(Clone, Debug, PartialEq, Eq)]
pub enum GetResult {
    /// A shell was started.
    Interactive,
    /// A worktree was leased.
    Lease(LeaseInfo),
}

// ---------- from the results of the library ----------

fn process_json(p: &ProcessInfo) -> (r: ProcessJson)
    ensures
        r@ == p@,
{
    ProcessJson { pid: p.pid, name: p.name.clone() }
}

/// An instant of a lease in a status: none for the zero sentinel.
pub open spec fn leased_text(t: Timestamp) -> Option<Seq<char>> {
    if t == zero_time() {
        None
    } else {
        Some(rfc3339_text(t.secs, t.nanos))
    }
}

impl StatusJson {
    /// The status of a worktree.
    pub fn from_ws(ws: &WorktreeStatus) -> (r: StatusJson)
        requires
            ws.leased_at.wf(),
            ws.expires_at.wf(),
        ensures
            r.name@ == ws.name@,
            r.path@ == ws.path@,
            r.status@ == ws.status@,
            r.lease_id@ == ws.lease_id@,
            r.lease_holder@ == ws.lease_holder@,
            opt_view(r.leased_at) == leased_text(ws.leased_at),
            process_views(r.processes@) == info_views(ws.processes@),
            opt_view(r.expires_at) == leased_text(ws.expires_at),
            r.stale == ws.stale,
    {
        let mut processes: Vec<ProcessJson> = Vec::new();
        let mut i: usize = 0;
        while i < ws.processes.len()
            invariant
                i <= ws.processes.len(),
                process_views(processes@) =~= info_views(ws.processes@).take(i as int),
            decreases ws.processes.len() - i,
        {
            let ghost before = processes@;
            processes.push(process_json(&ws.processes[i]));
            assert(process_views(processes@) =~= process_views(before).push(
                ws.processes@[i as int]@,
            ));
            i += 1;
        }
        let leased_at = if ws.leased_at.is_zero() {
            None
        } else {
            Some(rfc3339(ws.leased_at))
        };
        let expires_at = if ws.expires_at.is_zero() {
            None
        } else {
            Some(rfc3339(ws.expires_at))
        };
        StatusJson {
            name: ws.name.clone(),
            path: ws.path.clone(),
            status: ws.status.clone(),
            lease_id: ws.lease_id.clone(),
            lease_holder: ws.lease_holder.clone(),
            leased_at,
            processes,
            expires_at,
            stale: ws.stale,
        }
    }
}

impl DestroyTargetJson {
    /// It tells of this target.
    pub open spec fn tells(self, t: TargetView) -> bool {
        &&& self.name@ == t.name
        &&& self.path@ == t.path
        &&& self.class@ == t.class.name_spec()
        &&& self.bytes == t.bytes
        &&& self.detail@ == t.detail
    }
}

impl DestroySkipJson {
    /// It tells of this skip.
    pub open spec fn tells(self, s: SkipView) -> bool {
        &&& self.target.tells(s.target)
        &&& views(self.needed_flags@) == s.needed_flags
        &&& self.detail@ == s.detail
    }
}

/// Each of a list tells of the target at its place.
pub open spec fn tell_targets(v: Seq<DestroyTargetJson>, ts: Seq<TargetView>) -> bool {
    &&& v.len() == ts.len()
    &&& forall|i: int| 0 <= i < v.len() ==> (#[trigger] v[i]).tells(ts[i])
}

/// Each of a list tells of the skip at its place.
pub open spec fn tell_skips(v: Seq<DestroySkipJson>, ss: Seq<SkipView>) -> bool {
    &&& v.len() == ss.len()
    &&& forall|i: int| 0 <= i < v.len() ==> (#[trigger] v[i]).tells(ss[i])
}

fn target_json(t: &DestroyTarget) -> (r: DestroyTargetJson)
    ensures
        r.tells(t@),
{
    DestroyTargetJson {
        name: t.name.clone(),
        path: t.path.clone(),
        class: t.class.name().to_owned(),
        bytes: t.bytes,
        detail: t.detail.clone(),
    }
}

fn skip_json(s: &DestroySkip) -> (r: DestroySkipJson)
    ensures
        r.tells(s@),
{
    let mut flags: Vec<String> = Vec::new();
    let mut i: usize = 0;
    while i < s.needed_flags.len()
        invariant
            i <= s.needed_flags.len(),
            views(flags@) =~= flag_views(s.needed_flags@).take(i as int),
        decreases s.needed_flags.len() - i,
    {
        let ghost before = flags@;
        flags.push(s.needed_flags[i].to_owned());
        assert(views(flags@) =~= views(before).push(s.needed_flags@[i as int]@));
        i += 1;
    }
    assert(flag_views(s.needed_flags@).take(s.needed_flags.len() as int) =~= flag_views(
        s.needed_flags@,
    ));
    DestroySkipJson {
        target: target_json(&s.target),
        needed_flags: flags,
        detail: s.detail.clone(),
    }
}

fn target_jsons(ts: &Vec<DestroyTarget>) -> (r: Vec<DestroyTargetJson>)
    ensures
        tell_targets(r@, target_views(ts@)),
{
    let mut out: Vec<DestroyTargetJson> = Vec::new();
    let mut i: usize = 0;
    while i < ts.len()
        invariant
            i <= ts.len(),
            out@.len() == i,
            forall|k: int| 0 <= k < i ==> (#[trigger] out@[k]).tells(target_views(ts@)[k]),
        decreases ts.len() - i,
    {
        out.push(target_json(&ts[i]));
        i += 1;
    }
    out
}

fn skip_jsons(ss: &Vec<DestroySkip>) -> (r: Vec<DestroySkipJson>)
    ensures
        tell_skips(r@, skip_views(ss@)),
{
    let mut out: Vec<DestroySkipJson> = Vec::new();
    let mut i: usize = 0;
    while i < ss.len()
        invariant
            i <= ss.len(),
            out@.len() == i,
            forall|k: int| 0 <= k < i ==> (#[trigger] out@[k]).tells(skip_views(ss@)[k]),
        decreases ss.len() - i,
    {
        out.push(skip_json(&ss[i]));
        i += 1;
    }
    out
}

impl DestroyResultJson {
    /// The result of a destroy.
    pub fn from_result(r: &DestroyResult) -> (j: DestroyResultJson)
        ensures
            j.dry_run == r.dry_run,
            j.all == r.all,
            j.scope@ == r.scope@,
            tell_targets(j.planned@, target_views(r.planned@)),
            tell_targets(j.destroyed@, target_views(r.destroyed@)),
            tell_skips(j.skipped@, skip_views(r.skipped@)),
            j.planned_bytes == r.planned_bytes,
            j.freed_bytes == r.freed_bytes,
    {
        DestroyResultJson {
            dry_run: r.dry_run,
            all: r.all,
            scope: r.scope.clone(),
            planned: target_jsons(&r.planned),
            destroyed: target_jsons(&r.destroyed),
            skipped: skip_jsons(&r.skipped),
            planned_bytes: r.planned_bytes,
            freed_bytes: r.freed_bytes,
        }
    }
}

/// A count in 32 bits.
pub open spec fn low_bits(n: nat) -> u32 {
    (n % 0x1_0000_0000) as u32
}

fn count(n: usize) -> (r: u32)
    ensures
        r == low_bits(n as nat),
{
    (n as u64 % 0x1_0000_0000) as u32
}

/// The scope of a sweep over so many pools.
pub open spec fn sweep_scope(orphans_included: bool, global: bool, pools: nat) -> SweepScope {
    SweepScope { orphans_included, global, pool_count: low_bits(pools) }
}

impl SweepScope {
    /// The scope of a sweep over so many pools.
    pub fn of(orphans_included: bool, global: bool, pools: usize) -> (r: SweepScope)
        ensures
            r == sweep_scope(orphans_included, global, pools as nat),
    {
        SweepScope { orphans_included, global, pool_count: count(pools) }
    }
}

impl PruneResultJson {
    /// The result of a prune, with what its caller knows.
    pub fn from_result(
        r: &PruneResult,
        dry_run: bool,
        orphans_included: bool,
        global: bool,
        pool_count: u32,
    ) -> (j: PruneResultJson)
        ensures
            j == prune_numbers(*r, dry_run, orphans_included, global, pool_count),
    {
        PruneResultJson {
            dry_run,
            orphans_included,
            global,
            pool_count,
            candidates: count(r.candidates.len()),
            pruned: count(r.pruned.len()),
            skipped: count(r.skipped.len()),
            errors: count(r.errors.len()),
            reclaimable_bytes: r.reclaimable_bytes,
            freed_bytes: r.freed_bytes,
        }
    }
}

/// The result of a prune in numbers.
pub open spec fn prune_numbers(
    r: PruneResult,
    dry_run: bool,
    orphans_included: bool,
    global: bool,
    pool_count: u32,
) -> PruneResultJson {
    PruneResultJson {
        dry_run,
        orphans_included,
        global,
        pool_count,
        candidates: low_bits(r.candidates@.len()),
        pruned: low_bits(r.pruned@.len()),
        skipped: low_bits(r.skipped@.len()),
        errors: low_bits(r.errors@.len()),
        reclaimable_bytes: r.reclaimable_bytes,
        freed_bytes: r.freed_bytes,
    }
}

impl GcResultJson {
    /// The result of a reclaim, with what it went over.
    pub fn from_result(r: &GcResult, scope: SweepScope) -> (j: GcResultJson)
        ensures
            j == gc_numbers(*r, scope),
    {
        GcResultJson {
            dry_run: r.dry_run,
            global: scope.global,
            pool_count: scope.pool_count,
            candidates: count(r.candidates.len()),
            reclaimed: count(r.reclaimed.len()),
            skipped: count(r.skipped.len()),
            reclaimable_bytes: r.reclaimable_bytes,
            freed_bytes: r.freed_bytes,
            orphans_included: scope.orphans_included,
            errors: count(r.errors.len()),
        }
    }
}

/// The result of a reclaim in numbers.
pub open spec fn gc_numbers(r: GcResult, scope: SweepScope) -> GcResultJson {
    GcResultJson {
        dry_run: r.dry_run,
        global: scope.global,
        pool_count: scope.pool_count,
        candidates: low_bits(r.candidates@.len()),
        reclaimed: low_bits(r.reclaimed@.len()),
        skipped: low_bits(r.skipped@.len()),
        reclaimable_bytes: r.reclaimable_bytes,
        freed_bytes: r.freed_bytes,
        orphans_included: scope.orphans_included,
        errors: low_bits(r.errors@.len()),
    }
}

// ---------- as JSON ----------

/// A process as JSON.
pub open spec fn process_tree(p: ProcessInfoView) -> Tree {
    Tree::Object(seq![("pid"@, Tree::Int(p.pid as int)), ("name"@, Tree::Text(p.name))])
}

/// Processes as JSON.
pub open spec fn processes_tree(ps: Seq<ProcessInfoView>) -> Tree {
    Tree::List(ps.map_values(|p: ProcessInfoView| process_tree(p)))
}

/// Texts as JSON.
pub open spec fn texts_tree(ts: Seq<Seq<char>>) -> Tree {
    Tree::List(ts.map_values(|t: Seq<char>| Tree::Text(t)))
}

/// A text or null.
pub open spec fn text_or_null(s: Option<Seq<char>>) -> Tree {
    match s {
        Some(t) => Tree::Text(t),
        None => Tree::Null,
    }
}

/// The status of a worktree as JSON.
pub open spec fn status_tree(ws: WorktreeStatus) -> Tree {
    Tree::Object(
        seq![
            ("name"@, Tree::Text(ws.name@)),
            ("path"@, Tree::Text(ws.path@)),
            ("status"@, Tree::Text(ws.status@)),
            ("lease_id"@, Tree::Text(ws.lease_id@)),
            ("lease_holder"@, Tree::Text(ws.lease_holder@)),
            ("leased_at"@, text_or_null(leased_text(ws.leased_at))),
            ("processes"@, processes_tree(info_views(ws.processes@))),
            ("expires_at"@, text_or_null(leased_text(ws.expires_at))),
            ("stale"@, Tree::Bool(ws.stale)),
        ],
    )
}

/// The result of a return as JSON.
pub open spec fn return_tree(r: ReturnResult) -> Tree {
    Tree::Object(
        seq![
            ("path"@, Tree::Text(r.path@)),
            ("returned"@, Tree::Bool(r.returned)),
            ("aborted"@, Tree::Bool(r.aborted)),
            ("terminated"@, processes_tree(process_views(r.terminated@))),
            ("warnings"@, texts_tree(views(r.warnings@))),
        ],
    )
}

/// A target of a destroy as JSON.
pub open spec fn target_tree(t: TargetView) -> Tree {
    Tree::Object(
        seq![
            ("name"@, Tree::Text(t.name)),
            ("path"@, Tree::Text(t.path)),
            ("class"@, Tree::Text(t.class.name_spec())),
            ("bytes"@, Tree::Int(t.bytes as int)),
            ("detail"@, Tree::Text(t.detail)),
        ],
    )
}

/// A skip of a destroy as JSON.
pub open spec fn skip_tree(s: SkipView) -> Tree {
    Tree::Object(
        seq![
            ("target"@, target_tree(s.target)),
            ("needed_flags"@, texts_tree(s.needed_flags)),
            ("detail"@, Tree::Text(s.detail)),
        ],
    )
}

/// The result of a destroy as JSON.
pub open spec fn destroy_tree(r: DestroyResult) -> Tree {
    Tree::Object(
        seq![
            ("dry_run"@, Tree::Bool(r.dry_run)),
            ("all"@, Tree::Bool(r.all)),
            ("scope"@, Tree::Text(r.scope@)),
            (
                "planned"@,
                Tree::List(target_views(r.planned@).map_values(|t: TargetView| target_tree(t))),
            ),
            (
                "destroyed"@,
                Tree::List(target_views(r.destroyed@).map_values(|t: TargetView| target_tree(t))),
            ),
            (
                "skipped"@,
                Tree::List(skip_views(r.skipped@).map_values(|s: SkipView| skip_tree(s))),
            ),
            ("planned_bytes"@, Tree::Int(r.planned_bytes as int)),
            ("freed_bytes"@, Tree::Int(r.freed_bytes as int)),
        ],
    )
}

/// The result of a prune as JSON.
pub open spec fn prune_tree(r: PruneResultJson) -> Tree {
    Tree::Object(
        seq![
            ("dry_run"@, Tree::Bool(r.dry_run)),
            ("orphans_included"@, Tree::Bool(r.orphans_included)),
            ("global"@, Tree::Bool(r.global)),
            ("pool_count"@, Tree::Int(r.pool_count as int)),
            ("candidates"@, Tree::Int(r.candidates as int)),
            ("pruned"@, Tree::Int(r.pruned as int)),
            ("skipped"@, Tree::Int(r.skipped as int)),
            ("errors"@, Tree::Int(r.errors as int)),
            ("reclaimable_bytes"@, Tree::Int(r.reclaimable_bytes as int)),
            ("freed_bytes"@, Tree::Int(r.freed_bytes as int)),
        ],
    )
}

/// The result of a reclaim as JSON.
pub open spec fn gc_tree(r: GcResultJson) -> Tree {
    Tree::Object(
        seq![
            ("dry_run"@, Tree::Bool(r.dry_run)),
            ("global"@, Tree::Bool(r.global)),
            ("pool_count"@, Tree::Int(r.pool_count as int)),
            ("candidates"@, Tree::Int(r.candidates as int)),
            ("reclaimed"@, Tree::Int(r.reclaimed as int)),
            ("skipped"@, Tree::Int(r.skipped as int)),
            ("reclaimable_bytes"@, Tree::Int(r.reclaimable_bytes as int)),
            ("freed_bytes"@, Tree::Int(r.freed_bytes as int)),
            ("orphans_included"@, Tree::Bool(r.orphans_included)),
            ("errors"@, Tree::Int(r.errors as int)),
        ],
    )
}

/// The identity of a lease as JSON.
pub open spec fn lease_tree(l: LeaseInfo) -> Tree {
    Tree::Object(
        seq![
            ("path"@, Tree::Text(l.path@)),
            ("lease_id"@, Tree::Text(l.lease_id@)),
            ("lease_holder"@, Tree::Text(l.lease_holder@)),
            ("leased_at"@, Tree::Text(nano_text(l.leased_at))),
        ],
    )
}

proof fn lemma_process_keys(ms: Seq<(Seq<char>, Tree)>)
    requires
        ms.len() == 2,
        ms[0].0 == "pid"@,
        ms[1].0 == "name"@,
    ensures
        distinct(ms),
{
    reveal_strlit("pid");
    reveal_strlit("name");
    assert forall|i: int, j: int| 0 <= i < j < ms.len() implies (#[trigger] ms[i]).0 != (
    #[trigger] ms[j]).0 by {
        let a = ms[i].0;
        let b = ms[j].0;
        assert(a.len() != b.len());
    }
}

proof fn lemma_status_keys(ms: Seq<(Seq<char>, Tree)>)
    requires
        ms.len() == 9,
        ms[0].0 == "name"@,
        ms[1].0 == "path"@,
        ms[2].0 == "status"@,
        ms[3].0 == "lease_id"@,
        ms[4].0 == "lease_holder"@,
        ms[5].0 == "leased_at"@,
        ms[6].0 == "processes"@,
        ms[7].0 == "expires_at"@,
        ms[8].0 == "stale"@,
    ensures
        distinct(ms),
{
    reveal_strlit("name");
    reveal_strlit("path");
    reveal_strlit("status");
    reveal_strlit("lease_id");
    reveal_strlit("lease_holder");
    reveal_strlit("leased_at");
    reveal_strlit("processes");
    reveal_strlit("expires_at");
    reveal_strlit("stale");
    assert("name"@[0] != "path"@[0]);
    assert("leased_at"@[0] != "processes"@[0]);
    assert forall|i: int, j: int| 0 <= i < j < ms.len() implies (#[trigger] ms[i]).0 != (
    #[trigger] ms[j]).0 by {
        let a = ms[i].0;
        let b = ms[j].0;
        assert(a.len() != b.len() || a[0] != b[0]);
    }
}

proof fn lemma_return_keys(ms: Seq<(Seq<char>, Tree)>)
    requires
        ms.len() == 5,
        ms[0].0 == "path"@,
        ms[1].0 == "returned"@,
        ms[2].0 == "aborted"@,
        ms[3].0 == "terminated"@,
        ms[4].0 == "warnings"@,
    ensures
        distinct(ms),
{
    reveal_strlit("path");
    reveal_strlit("returned");
    reveal_strlit("aborted");
    reveal_strlit("terminated");
    reveal_strlit("warnings");
    assert("returned"@[0] != "warnings"@[0]);
    assert forall|i: int, j: int| 0 <= i < j < ms.len() implies (#[trigger] ms[i]).0 != (
    #[trigger] ms[j]).0 by {
        let a = ms[i].0;
        let b = ms[j].0;
        assert(a.len() != b.len() || a[0] != b[0]);
    }
}

proof fn lemma_target_keys(ms: Seq<(Seq<char>, Tree)>)
    requires
        ms.len() == 5,
        ms[0].0 == "name"@,
        ms[1].0 == "path"@,
        ms[2].0 == "class"@,
        ms[3].0 == "bytes"@,
        ms[4].0 == "detail"@,
    ensures
        distinct(ms),
{
    reveal_strlit("name");
    reveal_strlit("path");
    reveal_strlit("class");
    reveal_strlit("bytes");
    reveal_strlit("detail");
    assert("name"@[0] != "path"@[0]);
    assert("class"@[0] != "bytes"@[0]);
    assert forall|i: int, j: int| 0 <= i < j < ms.len() implies (#[trigger] ms[i]).0 != (
    #[trigger] ms[j]).0 by {
        let a = ms[i].0;
        let b = ms[j].0;
        assert(a.len() != b.len() || a[0] != b[0]);
    }
}

proof fn lemma_skip_keys(ms: Seq<(Seq<char>, Tree)>)
    requires
        ms.len() == 3,
        ms[0].0 == "target"@,
        ms[1].0 == "needed_flags"@,
        ms[2].0 == "detail"@,
    ensures
        distinct(ms),
{
    reveal_strlit("target");
    reveal_strlit("needed_flags");
    reveal_strlit("detail");
    assert("target"@[0] != "detail"@[0]);
    assert forall|i: int, j: int| 0 <= i < j < ms.len() implies (#[trigger] ms[i]).0 != (
    #[trigger] ms[j]).0 by {
        let a = ms[i].0;
        let b = ms[j].0;
        assert(a.len() != b.len() || a[0] != b[0]);
    }
}

proof fn lemma_destroy_keys(ms: Seq<(Seq<char>, Tree)>)
    requires
        ms.len() == 8,
        ms[0].0 == "dry_run"@,
        ms[1].0 == "all"@,
        ms[2].0 == "scope"@,
        ms[3].0 == "planned"@,
        ms[4].0 == "destroyed"@,
        ms[5].0 == "skipped"@,
        ms[6].0 == "planned_bytes"@,
        ms[7].0 == "freed_bytes"@,
    ensures
        distinct(ms),
{
    reveal_strlit("dry_run");
    reveal_strlit("all");
    reveal_strlit("scope");
    reveal_strlit("planned");
    reveal_strlit("destroyed");
    reveal_strlit("skipped");
    reveal_strlit("planned_bytes");
    reveal_strlit("freed_bytes");
    assert("dry_run"@[0] != "planned"@[0]);
    assert("dry_run"@[0] != "skipped"@[0]);
    assert("planned"@[0] != "skipped"@[0]);
    assert forall|i: int, j: int| 0 <= i < j < ms.len() implies (#[trigger] ms[i]).0 != (
    #[trigger] ms[j]).0 by {
        let a = ms[i].0;
        let b = ms[j].0;
        assert(a.len() != b.len() || a[0] != b[0]);
    }
}

proof fn lemma_prune_keys(ms: Seq<(Seq<char>, Tree)>)
    requires
        ms.len() == 10,
        ms[0].0 == "dry_run"@,
        ms[1].0 == "orphans_included"@,
        ms[2].0 == "global"@,
        ms[3].0 == "pool_count"@,
        ms[4].0 == "candidates"@,
        ms[5].0 == "pruned"@,
        ms[6].0 == "skipped"@,
        ms[7].0 == "errors"@,
        ms[8].0 == "reclaimable_bytes"@,
        ms[9].0 == "freed_bytes"@,
    ensures
        distinct(ms),
{
    reveal_strlit("dry_run");
    reveal_strlit("orphans_included");
    reveal_strlit("global");
    reveal_strlit("pool_count");
    reveal_strlit("candidates");
    reveal_strlit("pruned");
    reveal_strlit("skipped");
    reveal_strlit("errors");
    reveal_strlit("reclaimable_bytes");
    reveal_strlit("freed_bytes");
    assert("dry_run"@[0] != "skipped"@[0]);
    assert("global"@[0] != "pruned"@[0]);
    assert("global"@[0] != "errors"@[0]);
    assert("pool_count"@[0] != "candidates"@[0]);
    assert("pruned"@[0] != "errors"@[0]);
    assert forall|i: int, j: int| 0 <= i < j < ms.len() implies (#[trigger] ms[i]).0 != (
    #[trigger] ms[j]).0 by {
        let a = ms[i].0;
        let b = ms[j].0;
        assert(a.len() != b.len() || a[0] != b[0]);
    }
}

proof fn lemma_gc_keys(ms: Seq<(Seq<char>, Tree)>)
    requires
        ms.len() == 10,
        ms[0].0 == "dry_run"@,
        ms[1].0 == "global"@,
        ms[2].0 == "pool_count"@,
        ms[3].0 == "candidates"@,
        ms[4].0 == "reclaimed"@,
        ms[5].0 == "skipped"@,
        ms[6].0 == "reclaimable_bytes"@,
        ms[7].0 == "freed_bytes"@,
        ms[8].0 == "orphans_included"@,
        ms[9].0 == "errors"@,
    ensures
        distinct(ms),
{
    reveal_strlit("dry_run");
    reveal_strlit("global");
    reveal_strlit("pool_count");
    reveal_strlit("candidates");
    reveal_strlit("reclaimed");
    reveal_strlit("skipped");
    reveal_strlit("reclaimable_bytes");
    reveal_strlit("freed_bytes");
    reveal_strlit("orphans_included");
    reveal_strlit("errors");
    assert("dry_run"@[0] != "skipped"@[0]);
    assert("global"@[0] != "errors"@[0]);
    assert("pool_count"@[0] != "candidates"@[0]);
    assert forall|i: int, j: int| 0 <= i < j < ms.len() implies (#[trigger] ms[i]).0 != (
    #[trigger] ms[j]).0 by {
        let a = ms[i].0;
        let b = ms[j].0;
        assert(a.len() != b.len() || a[0] != b[0]);
    }
}

proof fn lemma_lease_keys(ms: Seq<(Seq<char>, Tree)>)
    requires
        ms.len() == 4,
        ms[0].0 == "path"@,
        ms[1].0 == "lease_id"@,
        ms[2].0 == "lease_holder"@,
        ms[3].0 == "leased_at"@,
    ensures
        distinct(ms),
{
    reveal_strlit("path");
    reveal_strlit("lease_id");
    reveal_strlit("lease_holder");
    reveal_strlit("leased_at");
    assert forall|i: int, j: int| 0 <= i < j < ms.len() implies (#[trigger] ms[i]).0 != (
    #[trigger] ms[j]).0 by {
        let a = ms[i].0;
        let b = ms[j].0;
        assert(a.len() != b.len());
    }
}

/// Appends a member.
pub(crate) fn put(ms: &mut Vec<(String, serde_json::Value)>, name: &str, v: serde_json::Value)
    ensures
        members(final(ms)@) == members(old(ms)@).push((name@, tree_of(v))),
{
    let ghost before = ms@;
    ms.push((name.to_owned(), v));
    assert(members(ms@) =~= members(before).push((name@, tree_of(v))));
}

fn process_value(p: &ProcessJson) -> (r: serde_json::Value)
    ensures
        tree_of(r) == process_tree(p@),
{
    let mut ms: Vec<(String, serde_json::Value)> = Vec::new();
    put(&mut ms, "pid", int_value(p.pid as i64));
    put(&mut ms, "name", text_value(&p.name));
    proof {
        lemma_process_keys(members(ms@));
        assert(Tree::Object(members(ms@)) == process_tree(p@)) by {
            assert(members(ms@) =~= seq![
                ("pid"@, Tree::Int(p.pid as int)),
                ("name"@, Tree::Text(p.name@)),
            ]);
        }
    }
    object_value(ms)
}

fn processes_value(ps: &Vec<ProcessJson>) -> (r: serde_json::Value)
    ensures
        tree_of(r) == processes_tree(process_views(ps@)),
{
    let ghost all = process_views(ps@).map_values(|p: ProcessInfoView| process_tree(p));
    let mut items: Vec<serde_json::Value> = Vec::new();
    let mut i: usize = 0;
    while i < ps.len()
        invariant
            i <= ps.len(),
            all == process_views(ps@).map_values(|p: ProcessInfoView| process_tree(p)),
            trees(items@) =~= all.take(i as int),
        decreases ps.len() - i,
    {
        let ghost before = items@;
        let v = process_value(&ps[i]);
        items.push(v);
        assert(trees(items@) =~= trees(before).push(tree_of(v)));
        i += 1;
    }
    assert(all.take(ps.len() as int) =~= all);
    list_value(items)
}

pub(crate) fn texts_value(ts: &Vec<String>) -> (r: serde_json::Value)
    ensures
        tree_of(r) == texts_tree(views(ts@)),
{
    let ghost all = views(ts@).map_values(|t: Seq<char>| Tree::Text(t));
    let mut items: Vec<serde_json::Value> = Vec::new();
    let mut i: usize = 0;
    while i < ts.len()
        invariant
            i <= ts.len(),
            all == views(ts@).map_values(|t: Seq<char>| Tree::Text(t)),
            trees(items@) =~= all.take(i as int),
        decreases ts.len() - i,
    {
        let ghost before = items@;
        let v = text_value(&ts[i]);
        items.push(v);
        assert(trees(items@) =~= trees(before).push(tree_of(v)));
        i += 1;
    }
    assert(all.take(ts.len() as int) =~= all);
    list_value(items)
}

fn status_value(ws: &WorktreeStatus) -> (r: serde_json::Value)
    requires
        ws.leased_at.wf(),
        ws.expires_at.wf(),
    ensures
        tree_of(r) == status_tree(*ws),
{
    let s = StatusJson::from_ws(ws);
    let leased_at = match &s.leased_at {
        Some(t) => text_value(t),
        None => null_value(),
    };
    let expires_at = match &s.expires_at {
        Some(t) => text_value(t),
        None => null_value(),
    };
    let mut ms: Vec<(String, serde_json::Value)> = Vec::new();
    put(&mut ms, "name", text_value(&s.name));
    put(&mut ms, "path", text_value(&s.path));
    put(&mut ms, "status", text_value(&s.status));
    put(&mut ms, "lease_id", text_value(&s.lease_id));
    put(&mut ms, "lease_holder", text_value(&s.lease_holder));
    put(&mut ms, "leased_at", leased_at);
    put(&mut ms, "processes", processes_value(&s.processes));
    put(&mut ms, "expires_at", expires_at);
    put(&mut ms, "stale", bool_value(s.stale));
    proof {
        lemma_status_keys(members(ms@));
        assert(members(ms@) =~= status_tree(*ws)->Object_0);
    }
    object_value(ms)
}

/// The instants of the leases are representable.
pub open spec fn instants_fit(v: Seq<WorktreeStatus>) -> bool {
    forall|i: int|
        0 <= i < v.len() ==> (#[trigger] v[i]).leased_at.wf() && v[i].expires_at.wf()
}

fn statuses_value(v: &Vec<WorktreeStatus>) -> (r: serde_json::Value)
    requires
        instants_fit(v@),
    ensures
        tree_of(r) == Tree::List(v@.map_values(|ws: WorktreeStatus| status_tree(ws))),
{
    let ghost all = v@.map_values(|ws: WorktreeStatus| status_tree(ws));
    let mut items: Vec<serde_json::Value> = Vec::new();
    let mut i: usize = 0;
    while i < v.len()
        invariant
            i <= v.len(),
            instants_fit(v@),
            all == v@.map_values(|ws: WorktreeStatus| status_tree(ws)),
            trees(items@) =~= all.take(i as int),
        decreases v.len() - i,
    {
        let ghost before = items@;
        let x = status_value(&v[i]);
        items.push(x);
        assert(trees(items@) =~= trees(before).push(tree_of(x)));
        i += 1;
    }
    assert(all.take(v.len() as int) =~= all);
    list_value(items)
}

fn return_value(x: &ReturnResult) -> (r: serde_json::Value)
    ensures
        tree_of(r) == return_tree(*x),
{
    let mut ms: Vec<(String, serde_json::Value)> = Vec::new();
    put(&mut ms, "path", text_value(&x.path));
    put(&mut ms, "returned", bool_value(x.returned));
    put(&mut ms, "aborted", bool_value(x.aborted));
    put(&mut ms, "terminated", processes_value(&x.terminated));
    put(&mut ms, "warnings", texts_value(&x.warnings));
    proof {
        lemma_return_keys(members(ms@));
        assert(members(ms@) =~= return_tree(*x)->Object_0);
    }
    object_value(ms)
}

fn target_value(t: &DestroyTargetJson, Ghost(view): Ghost<TargetView>) -> (r: serde_json::Value)
    requires
        t.tells(view),
    ensures
        tree_of(r) == target_tree(view),
{
    let mut ms: Vec<(String, serde_json::Value)> = Vec::new();
    put(&mut ms, "name", text_value(&t.name));
    put(&mut ms, "path", text_value(&t.path));
    put(&mut ms, "class", text_value(&t.class));
    put(&mut ms, "bytes", uint_value(t.bytes));
    put(&mut ms, "detail", text_value(&t.detail));
    proof {
        lemma_target_keys(members(ms@));
        assert(members(ms@) =~= target_tree(view)->Object_0);
    }
    object_value(ms)
}

fn targets_value(ts: &Vec<DestroyTargetJson>, Ghost(all): Ghost<Seq<TargetView>>) -> (r:
    serde_json::Value)
    requires
        tell_targets(ts@, all),
    ensures
        tree_of(r) == Tree::List(all.map_values(|t: TargetView| target_tree(t))),
{
    let ghost to = all.map_values(|t: TargetView| target_tree(t));
    let mut items: Vec<serde_json::Value> = Vec::new();
    let mut i: usize = 0;
    while i < ts.len()
        invariant
            i <= ts.len(),
            tell_targets(ts@, all),
            to == all.map_values(|t: TargetView| target_tree(t)),
            trees(items@) =~= to.take(i as int),
        decreases ts.len() - i,
    {
        let ghost before = items@;
        let v = target_value(&ts[i], Ghost(all[i as int]));
        items.push(v);
        assert(trees(items@) =~= trees(before).push(tree_of(v)));
        i += 1;
    }
    assert(to.take(ts.len() as int) =~= to);
    list_value(items)
}

fn skip_value(s: &DestroySkipJson, Ghost(view): Ghost<SkipView>) -> (r: serde_json::Value)
    requires
        s.tells(view),
    ensures
        tree_of(r) == skip_tree(view),
{
    let mut ms: Vec<(String, serde_json::Value)> = Vec::new();
    put(&mut ms, "target", target_value(&s.target, Ghost(view.target)));
    put(&mut ms, "needed_flags", texts_value(&s.needed_flags));
    put(&mut ms, "detail", text_value(&s.detail));
    proof {
        lemma_skip_keys(members(ms@));
        assert(members(ms@) =~= skip_tree(view)->Object_0);
    }
    object_value(ms)
}

fn skips_value(ss: &Vec<DestroySkipJson>, Ghost(all): Ghost<Seq<SkipView>>) -> (r:
    serde_json::Value)
    requires
        tell_skips(ss@, all),
    ensures
        tree_of(r) == Tree::List(all.map_values(|s: SkipView| skip_tree(s))),
{
    let ghost to = all.map_values(|s: SkipView| skip_tree(s));
    let mut items: Vec<serde_json::Value> = Vec::new();
    let mut i: usize = 0;
    while i < ss.len()
        invariant
            i <= ss.len(),
            tell_skips(ss@, all),
            to == all.map_values(|s: SkipView| skip_tree(s)),
            trees(items@) =~= to.take(i as int),
        decreases ss.len() - i,
    {
        let ghost before = items@;
        let v = skip_value(&ss[i], Ghost(all[i as int]));
        items.push(v);
        assert(trees(items@) =~= trees(before).push(tree_of(v)));
        i += 1;
    }
    assert(to.take(ss.len() as int) =~= to);
    list_value(items)
}

fn destroy_value(x: &DestroyResult) -> (r: serde_json::Value)
    ensures
        tree_of(r) == destroy_tree(*x),
{
    let j = DestroyResultJson::from_result(x);
    let mut ms: Vec<(String, serde_json::Value)> = Vec::new();
    put(&mut ms, "dry_run", bool_value(j.dry_run));
    put(&mut ms, "all", bool_value(j.all));
    put(&mut ms, "scope", text_value(&j.scope));
    put(&mut ms, "planned", targets_value(&j.planned, Ghost(target_views(x.planned@))));
    put(&mut ms, "destroyed", targets_value(&j.destroyed, Ghost(target_views(x.destroyed@))));
    put(&mut ms, "skipped", skips_value(&j.skipped, Ghost(skip_views(x.skipped@))));
    put(&mut ms, "planned_bytes", uint_value(j.planned_bytes));
    put(&mut ms, "freed_bytes", uint_value(j.freed_bytes));
    proof {
        lemma_destroy_keys(members(ms@));
        assert(members(ms@) =~= destroy_tree(*x)->Object_0);
    }
    object_value(ms)
}

fn prune_value(j: &PruneResultJson) -> (r: serde_json::Value)
    ensures
        tree_of(r) == prune_tree(*j),
{
    let mut ms: Vec<(String, serde_json::Value)> = Vec::new();
    put(&mut ms, "dry_run", bool_value(j.dry_run));
    put(&mut ms, "orphans_included", bool_value(j.orphans_included));
    put(&mut ms, "global", bool_value(j.global));
    put(&mut ms, "pool_count", uint_value(j.pool_count as u64));
    put(&mut ms, "candidates", uint_value(j.candidates as u64));
    put(&mut ms, "pruned", uint_value(j.pruned as u64));
    put(&mut ms, "skipped", uint_value(j.skipped as u64));
    put(&mut ms, "errors", uint_value(j.errors as u64));
    put(&mut ms, "reclaimable_bytes", uint_value(j.reclaimable_bytes));
    put(&mut ms, "freed_bytes", uint_value(j.freed_bytes));
    proof {
        lemma_prune_keys(members(ms@));
        assert(members(ms@) =~= prune_tree(*j)->Object_0);
    }
    object_value(ms)
}

fn gc_value(j: &GcResultJson) -> (r: serde_json::Value)
    ensures
        tree_of(r) == gc_tree(*j),
{
    let mut ms: Vec<(String, serde_json::Value)> = Vec::new();
    put(&mut ms, "dry_run", bool_value(j.dry_run));
    put(&mut ms, "global", bool_value(j.global));
    put(&mut ms, "pool_count", uint_value(j.pool_count as u64));
    put(&mut ms, "candidates", uint_value(j.candidates as u64));
    put(&mut ms, "reclaimed", uint_value(j.reclaimed as u64));
    put(&mut ms, "skipped", uint_value(j.skipped as u64));
    put(&mut ms, "reclaimable_bytes", uint_value(j.reclaimable_bytes));
    put(&mut ms, "freed_bytes", uint_value(j.freed_bytes));
    put(&mut ms, "orphans_included", bool_value(j.orphans_included));
    put(&mut ms, "errors", uint_value(j.errors as u64));
    proof {
        lemma_gc_keys(members(ms@));
        assert(members(ms@) =~= gc_tree(*j)->Object_0);
    }
    object_value(ms)
}

fn lease_value(l: &LeaseInfo) -> (r: serde_json::Value)
    requires
        l.leased_at.wf(),
    ensures
        tree_of(r) == lease_tree(*l),
{
    let at = serialize(l.leased_at);
    let mut ms: Vec<(String, serde_json::Value)> = Vec::new();
    put(&mut ms, "path", text_value(&l.path));
    put(&mut ms, "lease_id", text_value(&l.lease_id));
    put(&mut ms, "lease_holder", text_value(&l.lease_holder));
    put(&mut ms, "leased_at", text_value(&at));
    proof {
        lemma_lease_keys(members(ms@));
        assert(members(ms@) =~= lease_tree(*l)->Object_0);
    }
    object_value(ms)
}

impl CommandResult {
    /// The instants of the result are representable.
    pub open spec fn wf(self) -> bool {
        match self {
            CommandResult::Get(GetResult::Lease(l)) => l.leased_at.wf(),
            CommandResult::Status(v) => instants_fit(v@),
            _ => true,
        }
    }

    /// What the result holds for a machine: nothing for a shell.
    pub open spec fn tree(self) -> Option<Tree> {
        match self {
            CommandResult::Get(GetResult::Interactive) => None,
            CommandResult::Get(GetResult::Lease(l)) => Some(lease_tree(l)),
            CommandResult::Enter => None,
            CommandResult::Return(r) => Some(return_tree(r)),
            CommandResult::Status(v) => Some(
                Tree::List(v@.map_values(|ws: WorktreeStatus| status_tree(ws))),
            ),
            CommandResult::Prune(r, scope) => Some(
                prune_tree(
                    prune_numbers(
                        r,
                        r.dry_run,
                        scope.orphans_included,
                        scope.global,
                        scope.pool_count,
                    ),
                ),
            ),
            CommandResult::Gc(r, scope) => Some(gc_tree(gc_numbers(r, scope))),
            CommandResult::Destroy(r) => Some(destroy_tree(r)),
        }
    }

    /// The structured value for a machine, if there is one.
    pub fn payload(&self) -> (r: Option<serde_json::Value>)
        requires
            self.wf(),
        ensures
            crate::json::opt_tree(r) == self.tree(),
    {
        match self {
            CommandResult::Get(GetResult::Interactive) => None,
            CommandResult::Get(GetResult::Lease(l)) => Some(lease_value(l)),
            CommandResult::Enter => None,
            CommandResult::Return(r) => Some(return_value(r)),
            CommandResult::Status(v) => Some(statuses_value(v)),
            CommandResult::Prune(r, scope) => {
                let j = PruneResultJson::from_result(
                    r,
                    r.dry_run,
                    scope.orphans_included,
                    scope.global,
                    scope.pool_count,
                );
                Some(prune_value(&j))
            },
            CommandResult::Gc(r, scope) => {
                let j = GcResultJson::from_result(r, *scope);
                Some(gc_value(&j))
            },
            CommandResult::Destroy(r) => Some(destroy_value(r)),
        }
    }
}

// ---------- laws ----------

proof fn lemma_processes_plain(ps: Seq<ProcessInfoView>, n: nat)
    requires
        n >= 2,
    ensures
        plain(processes_tree(ps), n),
{
    reveal_with_fuel(plain, 3);
    let ts = processes_tree(ps)->List_0;
    assert forall|i: int| 0 <= i < ts.len() implies plain(#[trigger] ts[i], (n - 1) as nat) by {
        assert(ts[i] == process_tree(ps[i]));
        assert(plain(process_tree(ps[i]), (n - 1) as nat));
    }
}

proof fn lemma_texts_plain(ss: Seq<Seq<char>>, n: nat)
    requires
        n >= 1,
    ensures
        plain(texts_tree(ss), n),
{
    reveal_with_fuel(plain, 2);
}

proof fn lemma_targets_plain(ts: Seq<TargetView>, n: nat)
    requires
        n >= 2,
    ensures
        plain(Tree::List(ts.map_values(|t: TargetView| target_tree(t))), n),
{
    reveal_with_fuel(plain, 3);
    let all = ts.map_values(|t: TargetView| target_tree(t));
    assert forall|i: int| 0 <= i < all.len() implies plain(#[trigger] all[i], (n - 1) as nat) by {
        assert(all[i] == target_tree(ts[i]));
    }
}

proof fn lemma_skips_plain(ss: Seq<SkipView>, n: nat)
    requires
        n >= 3,
    ensures
        plain(Tree::List(ss.map_values(|s: SkipView| skip_tree(s))), n),
{
    reveal_with_fuel(plain, 3);
    let all = ss.map_values(|s: SkipView| skip_tree(s));
    assert forall|i: int| 0 <= i < all.len() implies plain(#[trigger] all[i], (n - 1) as nat) by {
        let s = ss[i];
        assert(all[i] == skip_tree(s));
        lemma_texts_plain(s.needed_flags, (n - 2) as nat);
        assert(plain(target_tree(s.target), (n - 2) as nat));
    }
}

/// Every value for a machine is made of texts, truth values, nulls and
/// integers of at most 64 bits, at most four levels deep.
pub proof fn law_payload_is_plain(r: CommandResult)
    ensures
        r.tree() matches Some(t) ==> plain(t, 4),
{
    reveal_with_fuel(plain, 3);
    match &r {
        CommandResult::Return(x) => {
            lemma_processes_plain(process_views(x.terminated@), 3);
            lemma_texts_plain(views(x.warnings@), 3);
        },
        CommandResult::Status(v) => {
            let all = v@.map_values(|ws: WorktreeStatus| status_tree(ws));
            assert forall|i: int| 0 <= i < all.len() implies plain(#[trigger] all[i], 3) by {
                assert(all[i] == status_tree(v@[i]));
                lemma_processes_plain(info_views(v@[i].processes@), 2);
            }
        },
        CommandResult::Destroy(x) => {
            lemma_targets_plain(target_views(x.planned@), 3);
            lemma_targets_plain(target_views(x.destroyed@), 3);
            lemma_skips_plain(skip_views(x.skipped@), 3);
        },
        _ => {},
    }
}

/// A status for machines has one object for each worktree, in order, each with
/// all its processes.
pub proof fn law_status_value_lists_everything(v: Vec<WorktreeStatus>, i: int)
    requires
        0 <= i < v@.len(),
    ensures
        CommandResult::Status(v).tree() matches Some(Tree::List(ts)) && ts.len() == v@.len() && ts[i]
            == status_tree(v@[i]),
        ({
            let ps = processes_tree(info_views(v@[i].processes@));
            &&& status_tree(v@[i])->Object_0.contains(("processes"@, ps))
            &&& status_tree(v@[i])->Object_0.contains(("path"@, Tree::Text(v@[i].path@)))
            &&& status_tree(v@[i])->Object_0.contains(("status"@, Tree::Text(v@[i].status@)))
            &&& status_tree(v@[i])->Object_0.contains(("lease_id"@, Tree::Text(v@[i].lease_id@)))
            &&& status_tree(v@[i])->Object_0.contains(
                ("lease_holder"@, Tree::Text(v@[i].lease_holder@)),
            )
            &&& status_tree(v@[i])->Object_0.contains(("stale"@, Tree::Bool(v@[i].stale)))
            &&& status_tree(v@[i])->Object_0.contains(("name"@, Tree::Text(v@[i].name@)))
            &&& status_tree(v@[i])->Object_0.contains(
                (
                    "leased_at"@,
                    if v@[i].leased_at == zero_time() {
                        Tree::Null
                    } else {
                        Tree::Text(rfc3339_text(v@[i].leased_at.secs, v@[i].leased_at.nanos))
                    },
                ),
            )
            &&& status_tree(v@[i])->Object_0.contains(
                (
                    "expires_at"@,
                    if v@[i].expires_at == zero_time() {
                        Tree::Null
                    } else {
                        Tree::Text(rfc3339_text(v@[i].expires_at.secs, v@[i].expires_at.nanos))
                    },
                ),
            )
            &&& ps matches Tree::List(xs) && xs.len() == v@[i].processes@.len() && forall|k: int|
                0 <= k < xs.len() ==> #[trigger] xs[k] == process_tree(v@[i].processes@[k]@)
        }),
{
    let ms = status_tree(v@[i])->Object_0;
    assert(ms[1] == ("path"@, Tree::Text(v@[i].path@)));
    assert(ms[2] == ("status"@, Tree::Text(v@[i].status@)));
    assert(ms[3] == ("lease_id"@, Tree::Text(v@[i].lease_id@)));
    assert(ms[4] == ("lease_holder"@, Tree::Text(v@[i].lease_holder@)));
    assert(ms[6] == ("processes"@, processes_tree(info_views(v@[i].processes@))));
    assert(ms[8] == ("stale"@, Tree::Bool(v@[i].stale)));
    assert(ms[0] == ("name"@, Tree::Text(v@[i].name@)));
    assert(ms[5] == ("leased_at"@, text_or_null(leased_text(v@[i].leased_at))));
    assert(ms[7] == ("expires_at"@, text_or_null(leased_text(v@[i].expires_at))));
}

/// The numbers for machines are those of the result, as long as they fit in 32
/// bits; sizes always are.
pub proof fn law_numbers_are_those_of_the_result(p: PruneResult, g: GcResult, scope: SweepScope)
    requires
        p.candidates@.len() <= u32::MAX,
        p.pruned@.len() <= u32::MAX,
        p.skipped@.len() <= u32::MAX,
        p.errors@.len() <= u32::MAX,
        g.candidates@.len() <= u32::MAX,
        g.reclaimed@.len() <= u32::MAX,
        g.skipped@.len() <= u32::MAX,
        g.errors@.len() <= u32::MAX,
    ensures
        ({
            let n = prune_numbers(
                p,
                p.dry_run,
                scope.orphans_included,
                scope.global,
                scope.pool_count,
            );
            &&& CommandResult::Prune(p, scope).tree() == Some(prune_tree(n))
            &&& n.dry_run == p.dry_run
            &&& n.orphans_included == scope.orphans_included
            &&& n.global == scope.global
            &&& n.pool_count == scope.pool_count
            &&& n.candidates == p.candidates@.len()
            &&& n.pruned == p.pruned@.len()
            &&& n.skipped == p.skipped@.len()
            &&& n.errors == p.errors@.len()
            &&& n.reclaimable_bytes == p.reclaimable_bytes
            &&& n.freed_bytes == p.freed_bytes
        }),
        ({
            let n = gc_numbers(g, scope);
            &&& CommandResult::Gc(g, scope).tree() == Some(gc_tree(n))
            &&& n.dry_run == g.dry_run
            &&& n.orphans_included == scope.orphans_included
            &&& n.global == scope.global
            &&& n.pool_count == scope.pool_count
            &&& n.candidates == g.candidates@.len()
            &&& n.reclaimed == g.reclaimed@.len()
            &&& n.skipped == g.skipped@.len()
            &&& n.errors == g.errors@.len()
            &&& n.reclaimable_bytes == g.reclaimable_bytes
            &&& n.freed_bytes == g.freed_bytes
        }),
{
}

/// A destroy for machines lists all that it planned, removed and left in place.
pub proof fn law_destroy_value_lists_everything(r: DestroyResult)
    ensures
        ({
            let ms = destroy_tree(r)->Object_0;
            let planned = Tree::List(r.planned@.map_values(|t: DestroyTarget| target_tree(t@)));
            let gone = Tree::List(r.destroyed@.map_values(|t: DestroyTarget| target_tree(t@)));
            let kept = Tree::List(r.skipped@.map_values(|s: DestroySkip| skip_tree(s@)));
            &&& ms.contains(("dry_run"@, Tree::Bool(r.dry_run)))
            &&& ms.contains(("planned"@, planned))
            &&& ms.contains(("destroyed"@, gone))
            &&& ms.contains(("skipped"@, kept))
            &&& ms.contains(("planned_bytes"@, Tree::Int(r.planned_bytes as int)))
            &&& ms.contains(("freed_bytes"@, Tree::Int(r.freed_bytes as int)))
        }),
{
    let ms = destroy_tree(r)->Object_0;
    assert(target_views(r.planned@).map_values(|t: TargetView| target_tree(t))
        =~= r.planned@.map_values(|t: DestroyTarget| target_tree(t@)));
    assert(target_views(r.destroyed@).map_values(|t: TargetView| target_tree(t))
        =~= r.destroyed@.map_values(|t: DestroyTarget| target_tree(t@)));
    assert(skip_views(r.skipped@).map_values(|s: SkipView| skip_tree(s)) =~= r.skipped@.map_values(
        |s: DestroySkip| skip_tree(s@),
    ));
    assert(ms[0] == ("dry_run"@, Tree::Bool(r.dry_run)));
    assert(ms[3].0 == "planned"@ && ms[4].0 == "destroyed"@ && ms[5].0 == "skipped"@);
    assert(ms[3] == ("planned"@, ms[3].1) && ms[4] == ("destroyed"@, ms[4].1) && ms[5] == (
        "skipped"@,
        ms[5].1,
    ));
    assert(ms[6] == ("planned_bytes"@, Tree::Int(r.planned_bytes as int)));
    assert(ms[7] == ("freed_bytes"@, Tree::Int(r.freed_bytes as int)));
}

/// A lease and a return say for machines what they are: where, under which
/// identity and for whom; and whether the worktree came back.
pub proof fn law_lease_and_return_values(l: LeaseInfo, r: ReturnResult)
    ensures
        ({
            let ms = lease_tree(l)->Object_0;
            &&& CommandResult::Get(GetResult::Lease(l)).tree() == Some(lease_tree(l))
            &&& ms.len() == 4
            &&& ms.contains(("path"@, Tree::Text(l.path@)))
            &&& ms.contains(("lease_id"@, Tree::Text(l.lease_id@)))
            &&& ms.contains(("lease_holder"@, Tree::Text(l.lease_holder@)))
            &&& ms.contains(("leased_at"@, Tree::Text(nano_text(l.leased_at))))
        }),
        ({
            let ms = return_tree(r)->Object_0;
            &&& CommandResult::Return(r).tree() == Some(return_tree(r))
            &&& ms.contains(("path"@, Tree::Text(r.path@)))
            &&& ms.contains(("returned"@, Tree::Bool(r.returned)))
            &&& ms.contains(("aborted"@, Tree::Bool(r.aborted)))
            &&& ms[3].1 matches Tree::List(ps) && ps.len() == r.terminated@.len() && forall|k: int|
                0 <= k < ps.len() ==> #[trigger] ps[k] == process_tree(r.terminated@[k]@)
        }),
{
    let a = lease_tree(l)->Object_0;
    assert(a[0] == ("path"@, Tree::Text(l.path@)));
    assert(a[1] == ("lease_id"@, Tree::Text(l.lease_id@)));
    assert(a[2] == ("lease_holder"@, Tree::Text(l.lease_holder@)));
    assert(a[3] == ("leased_at"@, Tree::Text(nano_text(l.leased_at))));
    let b = return_tree(r)->Object_0;
    assert(b[0] == ("path"@, Tree::Text(r.path@)));
    assert(b[1] == ("returned"@, Tree::Bool(r.returned)));
    assert(b[2] == ("aborted"@, Tree::Bool(r.aborted)));
}

/// The value of a target and of a skip say what they are about, with the flags
/// that are missing.
pub proof fn law_target_and_skip_values(t: TargetView, s: SkipView, p: ProcessInfoView)
    ensures
        target_tree(t) == Tree::Object(
            seq![
                ("name"@, Tree::Text(t.name)),
                ("path"@, Tree::Text(t.path)),
                ("class"@, Tree::Text(t.class.name_spec())),
                ("bytes"@, Tree::Int(t.bytes as int)),
                ("detail"@, Tree::Text(t.detail)),
            ],
        ),
        skip_tree(s)->Object_0.contains(("target"@, target_tree(s.target))),
        skip_tree(s)->Object_0[1].1 matches Tree::List(fs) && fs.len() == s.needed_flags.len()
            && forall|k: int|
            0 <= k < fs.len() ==> #[trigger] fs[k] == Tree::Text(s.needed_flags[k]),
        process_tree(p)->Object_0.contains(("pid"@, Tree::Int(p.pid as int))),
        process_tree(p)->Object_0.contains(("name"@, Tree::Text(p.name))),
{
    assert(skip_tree(s)->Object_0[0] == ("target"@, target_tree(s.target)));
    assert(process_tree(p)->Object_0[0] == ("pid"@, Tree::Int(p.pid as int)));
    assert(process_tree(p)->Object_0[1] == ("name"@, Tree::Text(p.name)));
}

/// What is told for machines of a target or a skip is what the command says of
/// it.
pub proof fn law_told_targets_are_the_targets(
    v: Seq<DestroyTargetJson>,
    ts: Seq<TargetView>,
    w: Seq<DestroySkipJson>,
    ss: Seq<SkipView>,
    i: int,
)
    requires
        tell_targets(v, ts),
        tell_skips(w, ss),
    ensures
        v.len() == ts.len(),
        w.len() == ss.len(),
        0 <= i < v.len() ==> v[i].name@ == ts[i].name && v[i].path@ == ts[i].path && v[i].class@
            == ts[i].class.name_spec() && v[i].bytes == ts[i].bytes && v[i].detail@ == ts[i].detail,
        0 <= i < w.len() ==> w[i].target.path@ == ss[i].target.path && views(w[i].needed_flags@)
            == ss[i].needed_flags && w[i].detail@ == ss[i].detail,
{
    if 0 <= i < v.len() {
        assert(v[i].tells(ts[i]));
    }
    if 0 <= i < w.len() {
        assert(w[i].tells(ss[i]));
    }
}

/// The numbers of a prune and of a reclaim stand under their own keys.
pub proof fn law_numbers_stand_under_their_keys(p: PruneResultJson, g: GcResultJson)
    ensures
        ({
            let ms = prune_tree(p)->Object_0;
            &&& ms.len() == 10
            &&& ms.contains(("dry_run"@, Tree::Bool(p.dry_run)))
            &&& ms.contains(("orphans_included"@, Tree::Bool(p.orphans_included)))
            &&& ms.contains(("global"@, Tree::Bool(p.global)))
            &&& ms.contains(("pool_count"@, Tree::Int(p.pool_count as int)))
            &&& ms.contains(("candidates"@, Tree::Int(p.candidates as int)))
            &&& ms.contains(("pruned"@, Tree::Int(p.pruned as int)))
            &&& ms.contains(("skipped"@, Tree::Int(p.skipped as int)))
            &&& ms.contains(("errors"@, Tree::Int(p.errors as int)))
            &&& ms.contains(("reclaimable_bytes"@, Tree::Int(p.reclaimable_bytes as int)))
            &&& ms.contains(("freed_bytes"@, Tree::Int(p.freed_bytes as int)))
        }),
        ({
            let ms = gc_tree(g)->Object_0;
            &&& ms.len() == 10
            &&& ms.contains(("dry_run"@, Tree::Bool(g.dry_run)))
            &&& ms.contains(("orphans_included"@, Tree::Bool(g.orphans_included)))
            &&& ms.contains(("global"@, Tree::Bool(g.global)))
            &&& ms.contains(("pool_count"@, Tree::Int(g.pool_count as int)))
            &&& ms.contains(("candidates"@, Tree::Int(g.candidates as int)))
            &&& ms.contains(("reclaimed"@, Tree::Int(g.reclaimed as int)))
            &&& ms.contains(("skipped"@, Tree::Int(g.skipped as int)))
            &&& ms.contains(("errors"@, Tree::Int(g.errors as int)))
            &&& ms.contains(("reclaimable_bytes"@, Tree::Int(g.reclaimable_bytes as int)))
            &&& ms.contains(("freed_bytes"@, Tree::Int(g.freed_bytes as int)))
        }),
{
    let a = prune_tree(p)->Object_0;
    assert(a[0] == ("dry_run"@, Tree::Bool(p.dry_run)));
    assert(a[1] == ("orphans_included"@, Tree::Bool(p.orphans_included)));
    assert(a[2] == ("global"@, Tree::Bool(p.global)));
    assert(a[3] == ("pool_count"@, Tree::Int(p.pool_count as int)));
    assert(a[4] == ("candidates"@, Tree::Int(p.candidates as int)));
    assert(a[5] == ("pruned"@, Tree::Int(p.pruned as int)));
    assert(a[6] == ("skipped"@, Tree::Int(p.skipped as int)));
    assert(a[7] == ("errors"@, Tree::Int(p.errors as int)));
    assert(a[8] == ("reclaimable_bytes"@, Tree::Int(p.reclaimable_bytes as int)));
    assert(a[9] == ("freed_bytes"@, Tree::Int(p.freed_bytes as int)));
    let b = gc_tree(g)->Object_0;
    assert(b[0] == ("dry_run"@, Tree::Bool(g.dry_run)));
    assert(b[1] == ("global"@, Tree::Bool(g.global)));
    assert(b[2] == ("pool_count"@, Tree::Int(g.pool_count as int)));
    assert(b[3] == ("candidates"@, Tree::Int(g.candidates as int)));
    assert(b[4] == ("reclaimed"@, Tree::Int(g.reclaimed as int)));
    assert(b[5] == ("skipped"@, Tree::Int(g.skipped as int)));
    assert(b[6] == ("reclaimable_bytes"@, Tree::Int(g.reclaimable_bytes as int)));
    assert(b[7] == ("freed_bytes"@, Tree::Int(g.freed_bytes as int)));
    assert(b[8] == ("orphans_included"@, Tree::Bool(g.orphans_included)));
    assert(b[9] == ("errors"@, Tree::Int(g.errors as int)));
}

} // verus!
