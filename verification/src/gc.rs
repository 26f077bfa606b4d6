//! Reclaiming worktrees that were left behind.
//!
//! A worktree with a valid lease is never reclaimed. One whose lease has
//! expired is, but only where it is also idle, clean and merged. A process
//! that runs in a worktree keeps it, however old its lease. An entry that was
//! recovered from a corrupt state is leased for good and never reclaimed.

use vstd::prelude::*;
use vstd::string::*;

use crate::process::{running_in, ProcessRecord, ProcessTable};
use crate::prune::{
    lemma_contains_push, PRUNE_ORPHAN_WARNING, PRUNE_SKIP_IN_USE, PRUNE_SKIP_ORPHANED,
    PRUNE_SKIP_UNCOMMITTED, PRUNE_SKIP_UNMERGED,
};
pub use crate::reclaim::CleanupError;
use crate::state::{owned, owner_alive, EntryView, WorktreeEntry};
use crate::text::opt_str_view;
use crate::time::Timestamp;

verus! {

/// A worktree that can be reclaimed.
#[derive(Clone, Debug, PartialEq, Eq)]
pub struct GcWorktree {
    pub name: String,
    pub path: String,
    pub bytes: u64,
    /// What kind of worktree it is.
    pub tag: String,
    pub warning: String,
}

/// What a [`GcWorktree`] says.
#[verifier::ext_equal]
pub struct GcWorktreeView {
    pub name: Seq<char>,
    pub path: Seq<char>,
    pub bytes: u64,
    pub tag: Seq<char>,
    pub warning: Seq<char>,
}

impl View for GcWorktree {
    type V = GcWorktreeView;

    open spec fn view(&self) -> GcWorktreeView {
        GcWorktreeView {
            name: self.name@,
            path: self.path@,
            bytes: self.bytes,
            tag: self.tag@,
            warning: self.warning@,
        }
    }
}

impl GcWorktree {
    /// A copy.
    pub fn copy(&self) -> (r: GcWorktree)
        ensures
            r == *self,
    {
        GcWorktree {
            name: self.name.clone(),
            path: self.path.clone(),
            bytes: self.bytes,
            tag: self.tag.clone(),
            warning: self.warning.clone(),
        }
    }
}

/// A worktree that is left in place, and why.
#[derive(Clone, Debug, PartialEq, Eq)]
pub struct GcSkipped {
    pub name: String,
    pub path: String,
    pub category: String,
    pub reason: String,
}

/// What a [`GcSkipped`] says.
#[verifier::ext_equal]
pub struct GcSkippedView {
    pub name: Seq<char>,
    pub path: Seq<char>,
    pub category: Seq<char>,
    pub reason: Seq<char>,
}

impl View for GcSkipped {
    type V = GcSkippedView;

    open spec fn view(&self) -> GcSkippedView {
        GcSkippedView {
            name: self.name@,
            path: self.path@,
            category: self.category@,
            reason: self.reason@,
        }
    }
}

impl GcSkipped {
    /// A copy.
    pub fn copy(&self) -> (r: GcSkipped)
        ensures
            r == *self,
    {
        GcSkipped {
            name: self.name.clone(),
            path: self.path.clone(),
            category: self.category.clone(),
            reason: self.reason.clone(),
        }
    }
}

/// The outcome of a run.
#[derive(Clone, Debug, PartialEq, Eq)]
pub struct GcResult {
    pub dry_run: bool,
    pub candidates: Vec<GcWorktree>,
    pub reclaimed: Vec<GcWorktree>,
    pub skipped: Vec<GcSkipped>,
    /// Worktrees whose removal failed. They stay in the state.
    pub errors: Vec<CleanupError>,
    pub reclaimable_bytes: u64,
    pub freed_bytes: u64,
}

impl Default for GcResult {
    fn default() -> (r: GcResult)
        ensures
            !r.dry_run,
            r.candidates@.len() == 0,
            r.reclaimed@.len() == 0,
            r.skipped@.len() == 0,
            r.errors@.len() == 0,
            r.reclaimable_bytes == 0,
            r.freed_bytes == 0,
    {
        GcResult {
            dry_run: false,
            candidates: Vec::new(),
            reclaimed: Vec::new(),
            skipped: Vec::new(),
            errors: Vec::new(),
            reclaimable_bytes: 0,
            freed_bytes: 0,
        }
    }
}

/// Options of a run. Without a word it is a dry run.
#[derive(Clone, Copy, Debug, PartialEq, Eq, Structural)]
pub struct GcOptions {
    pub dry_run: bool,
    pub prune_orphans: bool,
}

impl Default for GcOptions {
    fn default() -> (r: GcOptions)
        ensures
            r == (GcOptions { dry_run: true, prune_orphans: false }),
    {
        GcOptions { dry_run: true, prune_orphans: false }
    }
}

pub const GC_SKIP_VALID_LEASE: &'static str = "valid lease";

pub const GC_SKIP_IN_USE: &'static str = "in use";

pub const GC_SKIP_DISPOSABLE_BAR: &'static str = "not disposable";

// ---------- looking at one worktree ----------

/// What is to be found out about a worktree.
#[derive(Clone, Copy, Debug, PartialEq, Eq, Structural)]
pub enum GcQuery {
    /// Whether its backing repository is gone.
    BackingMissing,
    /// Whether it has changes.
    Dirty,
    /// Whether its HEAD is merged into the default ref.
    Merged,
    /// How large it is.
    Size,
}

/// What was found out about a worktree so far; `Some(None)` where it could not
/// be.
#[derive(Clone, Copy, Debug, PartialEq, Eq)]
pub struct GcFacts {
    pub backing_missing: Option<bool>,
    pub dirty: Option<Option<bool>>,
    pub merged: Option<Option<bool>>,
    pub size: Option<Option<u64>>,
}

impl Default for GcFacts {
    fn default() -> (r: GcFacts)
        ensures
            r.backing_missing is None,
            r.dirty is None,
            r.merged is None,
            r.size is None,
    {
        GcFacts { backing_missing: None, dirty: None, merged: None, size: None }
    }
}

/// The next step with a worktree.
#[derive(Clone, Debug, PartialEq, Eq)]
pub enum GcStep {
    /// Another command has it: it is not looked at.
    Ignore,
    /// Find this out first.
    Ask(GcQuery),
    /// It stays, and why.
    Skip(GcSkipped),
    /// It can be reclaimed.
    Candidate(GcWorktree),
}

/// What a [`GcStep`] says.
pub enum GcStepView {
    Ignore,
    Ask(GcQuery),
    Skip(GcSkippedView),
    Candidate(GcWorktreeView),
}

impl View for GcStep {
    type V = GcStepView;

    open spec fn view(&self) -> GcStepView {
        match self {
            GcStep::Ignore => GcStepView::Ignore,
            GcStep::Ask(q) => GcStepView::Ask(*q),
            GcStep::Skip(s) => GcStepView::Skip(s@),
            GcStep::Candidate(w) => GcStepView::Candidate(w@),
        }
    }
}

/// The skip of a worktree.
pub open spec fn gc_skip(e: EntryView, category: Seq<char>, reason: Seq<char>) -> GcStepView {
    GcStepView::Skip(GcSkippedView { name: e.name, path: e.path, category, reason })
}

/// The step of a worktree that only waits to be measured. A size that cannot
/// be told counts as nothing.
pub open spec fn gc_measured(
    e: EntryView,
    f: GcFacts,
    tag: Seq<char>,
    warning: Seq<char>,
) -> GcStepView {
    match f.size {
        None => GcStepView::Ask(GcQuery::Size),
        Some(size) => GcStepView::Candidate(
            GcWorktreeView {
                name: e.name,
                path: e.path,
                bytes: match size {
                    Some(n) => n,
                    None => 0,
                },
                tag,
                warning,
            },
        ),
    }
}

/// A process runs in the worktree, or that cannot be told.
pub open spec fn in_use(rs: Seq<ProcessRecord>, dir: Option<Seq<char>>) -> bool {
    match dir {
        Some(d) => running_in(rs, d).len() > 0,
        None => true,
    }
}

/// The step of a worktree, by what was found out about it so far. The order
/// is: who has it, its lease, its processes, its backing repository, its
/// changes, its merge into the default ref, its size.
pub open spec fn gc_step_spec(
    e: EntryView,
    rs: Seq<ProcessRecord>,
    dir: Option<Seq<char>>,
    prune_orphans: bool,
    default_ref: Option<Seq<char>>,
    now: Timestamp,
    f: GcFacts,
) -> GcStepView {
    if e.destroying || owned(e, rs) {
        GcStepView::Ignore
    } else if e.leased && !e.stale(now) {
        gc_skip(e, GC_SKIP_VALID_LEASE@, "lease is valid (not expired)"@)
    } else if in_use(rs, dir) {
        gc_skip(e, PRUNE_SKIP_IN_USE@, PRUNE_SKIP_IN_USE@)
    } else {
        match f.backing_missing {
            None => GcStepView::Ask(GcQuery::BackingMissing),
            Some(true) => if prune_orphans {
                gc_measured(e, f, "stale/orphaned"@, PRUNE_ORPHAN_WARNING@)
            } else {
                gc_skip(e, PRUNE_SKIP_ORPHANED@, PRUNE_ORPHAN_WARNING@)
            },
            Some(false) => match f.dirty {
                None => GcStepView::Ask(GcQuery::Dirty),
                Some(Some(false)) => match default_ref {
                    None => gc_skip(e, GC_SKIP_DISPOSABLE_BAR@, "cannot verify default branch"@),
                    Some(name) => match f.merged {
                        None => GcStepView::Ask(GcQuery::Merged),
                        Some(Some(true)) => gc_measured(
                            e,
                            f,
                            if e.leased {
                                "stale lease"@
                            } else {
                                "stale"@
                            },
                            seq![],
                        ),
                        Some(Some(false)) => gc_skip(
                            e,
                            PRUNE_SKIP_UNMERGED@,
                            "HEAD not merged into "@ + name,
                        ),
                        Some(None) => gc_skip(e, GC_SKIP_DISPOSABLE_BAR@, "cannot verify merge"@),
                    },
                },
                Some(_) => gc_skip(
                    e,
                    PRUNE_SKIP_UNCOMMITTED@,
                    "worktree has uncommitted changes"@,
                ),
            },
        }
    }
}

fn skip_step(wt: &WorktreeEntry, category: &str, reason: &str) -> (r: GcStep)
    ensures
        r@ == gc_skip(wt@, category@, reason@),
{
    GcStep::Skip(
        GcSkipped {
            name: wt.name.clone(),
            path: wt.path.clone(),
            category: category.to_owned(),
            reason: reason.to_owned(),
        },
    )
}

fn measure_step(wt: &WorktreeEntry, facts: &GcFacts, tag: &str, warning: &str) -> (r: GcStep)
    ensures
        r@ == gc_measured(wt@, *facts, tag@, warning@),
{
    match facts.size {
        None => GcStep::Ask(GcQuery::Size),
        Some(size) => GcStep::Candidate(
            GcWorktree {
                name: wt.name.clone(),
                path: wt.path.clone(),
                bytes: match size {
                    Some(n) => n,
                    None => 0,
                },
                tag: tag.to_owned(),
                warning: warning.to_owned(),
            },
        ),
    }
}

/// The next step with a worktree. `dir` is its resolved path, `default_ref`
/// the ref that it must be merged into, none where that cannot be told.
pub fn analyze_gc_candidate(
    wt: &WorktreeEntry,
    process: &ProcessTable,
    dir: Option<&str>,
    opts: &GcOptions,
    default_ref: Option<&str>,
    now: Timestamp,
    facts: &GcFacts,
) -> (r: GcStep)
    ensures
        r@ == gc_step_spec(
            wt@,
            process.records@,
            opt_str_view(dir),
            opts.prune_orphans,
            opt_str_view(default_ref),
            now,
            *facts,
        ),
{
    if wt.destroying || owner_alive(wt, process) {
        return GcStep::Ignore;
    }
    if wt.leased && !wt.is_stale_lease(now) {
        return skip_step(wt, GC_SKIP_VALID_LEASE, "lease is valid (not expired)");
    }
    let busy: bool = match process.is_worktree_in_use(dir) {
        Ok(b) => b,
        Err(_) => true,
    };
    if busy {
        return skip_step(wt, PRUNE_SKIP_IN_USE, PRUNE_SKIP_IN_USE);
    }
    let backing_missing: bool = match facts.backing_missing {
        Some(b) => b,
        None => return GcStep::Ask(GcQuery::BackingMissing),
    };
    if backing_missing {
        if !opts.prune_orphans {
            return skip_step(wt, PRUNE_SKIP_ORPHANED, PRUNE_ORPHAN_WARNING);
        }
        return measure_step(wt, facts, "stale/orphaned", PRUNE_ORPHAN_WARNING);
    }
    let tag: &str = if wt.leased {
        "stale lease"
    } else {
        "stale"
    };
    match facts.dirty {
        None => return GcStep::Ask(GcQuery::Dirty),
        Some(Some(false)) => {},
        Some(_) => return skip_step(
            wt,
            PRUNE_SKIP_UNCOMMITTED,
            "worktree has uncommitted changes",
        ),
    }
    let name: &str = match default_ref {
        Some(name) => name,
        None => return skip_step(wt, GC_SKIP_DISPOSABLE_BAR, "cannot verify default branch"),
    };
    match facts.merged {
        None => GcStep::Ask(GcQuery::Merged),
        Some(Some(true)) => {
            proof {
                reveal_strlit("");
                assert(""@ =~= Seq::<char>::empty());
            }
            measure_step(wt, facts, tag, "")
        },
        Some(Some(false)) => {
            let mut reason = "HEAD not merged into ".to_owned();
            reason.append(name);
            skip_step(wt, PRUNE_SKIP_UNMERGED, &reason)
        },
        Some(None) => skip_step(wt, GC_SKIP_DISPOSABLE_BAR, "cannot verify merge"),
    }
}

// ---------- the plan ----------

/// The candidates among the steps, in order.
pub open spec fn gc_candidates_of(steps: Seq<GcStep>) -> Seq<GcWorktree>
    decreases steps.len(),
{
    if steps.len() == 0 {
        seq![]
    } else {
        let rest = gc_candidates_of(steps.drop_last());
        match steps.last() {
            GcStep::Candidate(w) => rest.push(w),
            _ => rest,
        }
    }
}

/// The skips among the steps, in order.
pub open spec fn gc_skips_of(steps: Seq<GcStep>) -> Seq<GcSkipped>
    decreases steps.len(),
{
    if steps.len() == 0 {
        seq![]
    } else {
        let rest = gc_skips_of(steps.drop_last());
        match steps.last() {
            GcStep::Skip(s) => rest.push(s),
            _ => rest,
        }
    }
}

/// The size of all the worktrees together.
pub open spec fn gc_bytes(ws: Seq<GcWorktree>) -> nat
    decreases ws.len(),
{
    if ws.len() == 0 {
        0
    } else {
        gc_bytes(ws.drop_last()) + ws.last().bytes as nat
    }
}

proof fn lemma_gc_bytes_prefix(ws: Seq<GcWorktree>, i: int)
    requires
        0 <= i <= ws.len(),
    ensures
        gc_bytes(ws.take(i)) <= gc_bytes(ws),
    decreases ws.len() - i,
{
    if i == ws.len() {
        assert(ws.take(i) =~= ws);
    } else {
        lemma_gc_bytes_prefix(ws, i + 1);
        assert(ws.take(i + 1).drop_last() =~= ws.take(i));
    }
}

/// The size of all the worktrees together.
pub fn sum_gc_bytes(ws: &Vec<GcWorktree>) -> (r: u64)
    requires
        gc_bytes(ws@) <= u64::MAX,
    ensures
        r == gc_bytes(ws@),
{
    let mut sum: u64 = 0;
    let mut i: usize = 0;
    while i < ws.len()
        invariant
            i <= ws.len(),
            gc_bytes(ws@) <= u64::MAX,
            sum == gc_bytes(ws@.take(i as int)),
        decreases ws.len() - i,
    {
        proof {
            assert(ws@.take(i + 1).drop_last() =~= ws@.take(i as int));
            lemma_gc_bytes_prefix(ws@, i + 1);
        }
        sum = sum + ws[i].bytes;
        i += 1;
    }
    assert(ws@.take(ws.len() as int) =~= ws@);
    sum
}

/// What a run would do, by the last step with each worktree. Nothing is
/// reclaimed yet.
pub fn plan_gc(dry_run: bool, steps: &Vec<GcStep>) -> (r: GcResult)
    requires
        gc_bytes(gc_candidates_of(steps@)) <= u64::MAX,
    ensures
        r.dry_run == dry_run,
        r.candidates@ == gc_candidates_of(steps@),
        r.skipped@ == gc_skips_of(steps@),
        r.reclaimable_bytes == gc_bytes(gc_candidates_of(steps@)),
        r.reclaimed@.len() == 0,
        r.errors@.len() == 0,
        r.freed_bytes == 0,
{
    let mut result = GcResult::default();
    result.dry_run = dry_run;
    let mut i: usize = 0;
    while i < steps.len()
        invariant
            i <= steps.len(),
            result.dry_run == dry_run,
            result.candidates@ =~= gc_candidates_of(steps@.take(i as int)),
            result.skipped@ =~= gc_skips_of(steps@.take(i as int)),
            result.reclaimed@.len() == 0,
            result.errors@.len() == 0,
            result.freed_bytes == 0,
        decreases steps.len() - i,
    {
        assert(steps@.take(i + 1).drop_last() =~= steps@.take(i as int));
        assert(steps@.take(i + 1).last() == steps@[i as int]);
        match &steps[i] {
            GcStep::Skip(s) => result.skipped.push(s.copy()),
            GcStep::Candidate(w) => result.candidates.push(w.copy()),
            _ => {},
        }
        i += 1;
    }
    assert(steps@.take(steps.len() as int) =~= steps@);
    let bytes: u64 = sum_gc_bytes(&result.candidates);
    result.reclaimable_bytes = bytes;
    result
}

/// Whether a plan is to be carried out: not in a dry run, and not where there
/// is nothing to do.
pub fn gc_goes_on(plan: &GcResult) -> (r: bool)
    ensures
        r == (!plan.dry_run && plan.candidates@.len() > 0),
{
    !plan.dry_run && plan.candidates.len() > 0
}

/// The plan with what came of it.
pub fn finish_gc(plan: GcResult, reclaimed: Vec<GcWorktree>, errors: Vec<CleanupError>) -> (r:
    GcResult)
    requires
        gc_bytes(reclaimed@) <= u64::MAX,
    ensures
        r == (GcResult { reclaimed, errors, freed_bytes: gc_bytes(reclaimed@) as u64, ..plan }),
{
    let freed_bytes: u64 = sum_gc_bytes(&reclaimed);
    GcResult {
        dry_run: plan.dry_run,
        candidates: plan.candidates,
        reclaimed,
        skipped: plan.skipped,
        errors,
        reclaimable_bytes: plan.reclaimable_bytes,
        freed_bytes,
    }
}

// ---------- laws ----------

/// A valid lease keeps its worktree: whatever else is found out, it is never a
/// candidate.
pub proof fn law_valid_lease_is_never_reclaimed(
    e: EntryView,
    rs: Seq<ProcessRecord>,
    dir: Option<Seq<char>>,
    prune_orphans: bool,
    default_ref: Option<Seq<char>>,
    now: Timestamp,
    f: GcFacts,
)
    requires
        e.valid(now),
    ensures
        !(gc_step_spec(e, rs, dir, prune_orphans, default_ref, now, f) is Candidate),
{
}

/// A process that runs in a worktree keeps it, even past the end of its lease.
pub proof fn law_process_keeps_worktree(
    e: EntryView,
    rs: Seq<ProcessRecord>,
    dir: Seq<char>,
    prune_orphans: bool,
    default_ref: Option<Seq<char>>,
    now: Timestamp,
    f: GcFacts,
)
    requires
        running_in(rs, dir).len() > 0,
    ensures
        !(gc_step_spec(e, rs, Some(dir), prune_orphans, default_ref, now, f) is Candidate),
{
}

/// A candidate is idle and without a valid lease; it is known to be clean and
/// merged, or an orphan that the user asked for.
pub proof fn law_gc_candidate_is_safe(
    e: EntryView,
    rs: Seq<ProcessRecord>,
    dir: Option<Seq<char>>,
    prune_orphans: bool,
    default_ref: Option<Seq<char>>,
    now: Timestamp,
    f: GcFacts,
)
    requires
        gc_step_spec(e, rs, dir, prune_orphans, default_ref, now, f) is Candidate,
    ensures
        !e.destroying,
        !owned(e, rs),
        !in_use(rs, dir),
        e.leased ==> e.stale(now),
        f.backing_missing == Some(true) ==> prune_orphans,
        f.backing_missing == Some(false) ==> {
            &&& f.dirty == Some(Some(false))
            &&& default_ref is Some
            &&& f.merged == Some(Some(true))
        },
{
}

/// What is asked for is not known yet, so looking at a worktree comes to an
/// end.
pub proof fn law_gc_asks_for_unknown(
    e: EntryView,
    rs: Seq<ProcessRecord>,
    dir: Option<Seq<char>>,
    prune_orphans: bool,
    default_ref: Option<Seq<char>>,
    now: Timestamp,
    f: GcFacts,
)
    ensures
        gc_step_spec(e, rs, dir, prune_orphans, default_ref, now, f) matches GcStepView::Ask(q)
            ==> match q {
            GcQuery::BackingMissing => f.backing_missing is None,
            GcQuery::Dirty => f.dirty is None,
            GcQuery::Merged => f.merged is None,
            GcQuery::Size => f.size is None,
        },
{
}

/// A recovered entry is never a candidate.
pub proof fn law_recovered_is_never_reclaimed(
    pool_dir: Seq<char>,
    slot: Seq<char>,
    child: Seq<char>,
    found: Timestamp,
    rs: Seq<ProcessRecord>,
    dir: Option<Seq<char>>,
    prune_orphans: bool,
    default_ref: Option<Seq<char>>,
    now: Timestamp,
    f: GcFacts,
)
    ensures
        !(gc_step_spec(
            crate::state::recovered_entry(pool_dir, slot, child, found),
            rs,
            dir,
            prune_orphans,
            default_ref,
            now,
            f,
        ) is Candidate),
{
}

/// A plan takes up each step once: its candidates are the worktrees of the
/// steps that are candidates, its skips those of the steps that are skips,
/// both in order, and nothing else is in either.
pub proof fn law_gc_plan_follows_steps(steps: Seq<GcStep>)
    ensures
        gc_candidates_of(steps) == steps.filter_map(
            |s: GcStep|
                match s {
                    GcStep::Candidate(w) => Some(w),
                    _ => None,
                },
        ),
        gc_skips_of(steps) == steps.filter_map(
            |s: GcStep|
                match s {
                    GcStep::Skip(k) => Some(k),
                    _ => None,
                },
        ),
    decreases steps.len(),
{
    reveal(Seq::filter_map);
    if steps.len() > 0 {
        law_gc_plan_follows_steps(steps.drop_last());
    }
}

/// Every worktree that a step finds reclaimable is a candidate of the plan,
/// and no other is; it is skipped exactly if a step says so; no step counts
/// twice.
pub proof fn law_gc_plans_every_candidate(steps: Seq<GcStep>, w: GcWorktree, k: GcSkipped)
    ensures
        gc_candidates_of(steps).contains(w) <==> steps.contains(GcStep::Candidate(w)),
        gc_skips_of(steps).contains(k) <==> steps.contains(GcStep::Skip(k)),
        gc_candidates_of(steps).len() + gc_skips_of(steps).len() == steps.filter(
            |s: GcStep| s is Candidate || s is Skip,
        ).len(),
    decreases steps.len(),
{
    reveal(Seq::filter);
    if steps.len() > 0 {
        let front = steps.drop_last();
        let last = steps.last();
        law_gc_plans_every_candidate(front, w, k);
        assert(front.push(last) =~= steps);
        lemma_contains_push(front, last, GcStep::Candidate(w));
        lemma_contains_push(front, last, GcStep::Skip(k));
        match last {
            GcStep::Candidate(x) => lemma_contains_push(gc_candidates_of(front), x, w),
            GcStep::Skip(x) => lemma_contains_push(gc_skips_of(front), x, k),
            _ => {},
        }
    }
}

/// The size of a row of worktrees is the sum of their sizes.
pub proof fn law_gc_sizes_add_up(a: Seq<GcWorktree>, b: Seq<GcWorktree>, w: GcWorktree)
    ensures
        gc_bytes(seq![]) == 0,
        gc_bytes(seq![w]) == w.bytes,
        gc_bytes(a + b) == gc_bytes(a) + gc_bytes(b),
    decreases b.len(),
{
    assert(seq![w].drop_last() =~= seq![]);
    if b.len() == 0 {
        assert(a + b =~= a);
    } else {
        law_gc_sizes_add_up(a, b.drop_last(), w);
        assert((a + b).drop_last() =~= a + b.drop_last());
    }
}

/// A worktree can be reclaimed exactly if no other command and no process has
/// it, its lease is over or it has none, it was measured, and it is either
/// clean and merged into the default ref, or an orphan that the user asked
/// for. What is reclaimed is that worktree, tagged for what it is.
pub proof fn law_reclaimable_exactly(
    e: EntryView,
    rs: Seq<ProcessRecord>,
    dir: Option<Seq<char>>,
    prune_orphans: bool,
    default_ref: Option<Seq<char>>,
    now: Timestamp,
    f: GcFacts,
)
    ensures
        ({
            let step = gc_step_spec(e, rs, dir, prune_orphans, default_ref, now, f);
            let free = !e.destroying && !owned(e, rs) && (e.leased ==> e.stale(now)) && (
            dir matches Some(d) && running_in(rs, d).len() == 0);
            let orphan = f.backing_missing == Some(true) && prune_orphans;
            let landed = f.backing_missing == Some(false) && f.dirty == Some(Some(false))
                && default_ref is Some && f.merged == Some(Some(true));
            &&& step is Candidate <==> free && (orphan || landed) && f.size is Some
            &&& step matches GcStepView::Candidate(w) ==> {
                &&& w.name == e.name
                &&& w.path == e.path
                &&& match f.size->0 {
                    Some(n) => w.bytes == n,
                    None => w.bytes == 0,
                }
                &&& w.tag == if orphan {
                    "stale/orphaned"@
                } else if e.leased {
                    "stale lease"@
                } else {
                    "stale"@
                }
            }
            &&& step is Ignore <==> e.destroying || owned(e, rs)
        }),
{
}

/// A worktree that is looked at and not reclaimed says why: a valid lease, a
/// process, a missing repository, changes, unmerged work, or what could not be
/// told.
pub proof fn law_gc_skips_say_why(
    e: EntryView,
    rs: Seq<ProcessRecord>,
    dir: Option<Seq<char>>,
    prune_orphans: bool,
    default_ref: Option<Seq<char>>,
    now: Timestamp,
    f: GcFacts,
)
    requires
        !e.destroying,
        !owned(e, rs),
    ensures
        ({
            let step = gc_step_spec(e, rs, dir, prune_orphans, default_ref, now, f);
            let used = dir matches Some(d) ==> running_in(rs, d).len() > 0;
            let over = e.leased ==> e.stale(now);
            let here = over && !used && f.backing_missing == Some(false);
            let clean = here && f.dirty == Some(Some(false));
            &&& step matches GcStepView::Skip(k) ==> k.name == e.name && k.path == e.path
            &&& !over ==> (step matches GcStepView::Skip(k) && k.category == GC_SKIP_VALID_LEASE@)
            &&& over && used ==> (step matches GcStepView::Skip(k) && k.category == GC_SKIP_IN_USE@)
            &&& over && !used && f.backing_missing == Some(true) && !prune_orphans ==> (
            step matches GcStepView::Skip(k) && k.category == PRUNE_SKIP_ORPHANED@)
            &&& here && f.dirty is Some && f.dirty != Some(Some(false)) ==> (
            step matches GcStepView::Skip(k) && k.category == PRUNE_SKIP_UNCOMMITTED@)
            &&& clean && default_ref is None ==> (step matches GcStepView::Skip(k) && k.category
                == GC_SKIP_DISPOSABLE_BAR@)
            &&& clean && default_ref is Some && f.merged == Some(Some(false)) ==> (
            step matches GcStepView::Skip(k) && k.category == PRUNE_SKIP_UNMERGED@)
            &&& clean && default_ref is Some && f.merged == Some(None::<bool>) ==> (
            step matches GcStepView::Skip(k) && k.category == GC_SKIP_DISPOSABLE_BAR@)
        }),
{
}

/// A plan holds only worktrees without a valid lease that nobody has and that
/// are clean and merged, or orphans that the user asked for.
pub proof fn law_gc_plans_only_safe_worktrees(
    es: Seq<EntryView>,
    rs: Seq<ProcessRecord>,
    dirs: Seq<Option<Seq<char>>>,
    prune_orphans: bool,
    default_ref: Option<Seq<char>>,
    now: Timestamp,
    fs: Seq<GcFacts>,
    steps: Seq<GcStep>,
    w: GcWorktree,
)
    requires
        steps.len() == es.len(),
        forall|i: int|
            0 <= i < es.len() ==> (#[trigger] steps[i])@ == gc_step_spec(
                es[i],
                rs,
                dirs[i],
                prune_orphans,
                default_ref,
                now,
                fs[i],
            ),
        gc_candidates_of(steps).contains(w),
    ensures
        exists|i: int|
            0 <= i < es.len() && (#[trigger] es[i]).path == w.path@ && !es[i].destroying && !owned(
                es[i],
                rs,
            ) && !es[i].valid(now) && !in_use(rs, dirs[i]) && (if fs[i].backing_missing == Some(
                true,
            ) {
                prune_orphans
            } else {
                fs[i].dirty == Some(Some(false)) && fs[i].merged == Some(Some(true))
            }),
{
    law_gc_plans_every_candidate(steps, w, arbitrary());
    let i = choose|i: int| 0 <= i < steps.len() && steps[i] == GcStep::Candidate(w);
    law_reclaimable_exactly(es[i], rs, dirs[i], prune_orphans, default_ref, now, fs[i]);
    assert(steps[i]@ == GcStepView::Candidate(w@));
    assert(es[i].path == w.path@);
}

/// A worktree is in use exactly if its path does not resolve or a process runs
/// in it.
pub proof fn law_gc_in_use_exactly(rs: Seq<ProcessRecord>, dir: Option<Seq<char>>)
    ensures
        in_use(rs, dir) <==> match dir {
            None => true,
            Some(d) => exists|i: int|
                0 <= i < rs.len() && ((#[trigger] rs[i]).cwd matches Some(cwd)
                    && crate::path::inside(d, cwd@)),
        },
{
    if let Some(d) = dir {
        crate::process::law_every_process_is_found(rs, d);
    }
}

/// What is not known yet about a worktree that nobody has and decides on it is
/// asked for: its repository first, then its changes, its merge, and last its
/// size.
pub proof fn law_gc_asks_for_what_decides(
    e: EntryView,
    rs: Seq<ProcessRecord>,
    dir: Option<Seq<char>>,
    prune_orphans: bool,
    default_ref: Option<Seq<char>>,
    now: Timestamp,
    f: GcFacts,
)
    requires
        !e.destroying,
        !owned(e, rs),
        e.leased ==> e.stale(now),
        dir matches Some(d) && running_in(rs, d).len() == 0,
    ensures
        ({
            let step = gc_step_spec(e, rs, dir, prune_orphans, default_ref, now, f);
            let here = f.backing_missing == Some(false);
            let clean = here && f.dirty == Some(Some(false)) && default_ref is Some;
            let goes = (f.backing_missing == Some(true) && prune_orphans) || (clean && f.merged
                == Some(Some(true)));
            &&& step == GcStepView::Ask(GcQuery::BackingMissing) <==> f.backing_missing is None
            &&& step == GcStepView::Ask(GcQuery::Dirty) <==> here && f.dirty is None
            &&& step == GcStepView::Ask(GcQuery::Merged) <==> clean && f.merged is None
            &&& step == GcStepView::Ask(GcQuery::Size) <==> goes && f.size is None
        }),
{
}

} // verus!
