//! Pruning: removing idle worktrees that are clean and merged.
//!
//! A leased worktree, one in use, one with changes or with unmerged work is
//! never pruned, nor is one of which that cannot be told. A worktree whose
//! backing repository is gone is left alone unless the user asks for it. By
//! default nothing is removed.

use vstd::prelude::*;
use vstd::string::*;

use crate::git::GitError;
use crate::pool::idle;
use crate::process::{ProcessRecord, ProcessTable};
pub use crate::reclaim::CleanupError;
use crate::state::{owner_alive, EntryView, WorktreeEntry};
use crate::text::{decimal, decimal_text, opt_str_view};

verus! {

/// A worktree that can be pruned.
#[derive(Clone, Debug, PartialEq, Eq)]
pub struct PruneWorktree {
    pub name: String,
    pub path: String,
    pub bytes: u64,
    pub orphaned: bool,
    pub warning: String,
}

/// What a [`PruneWorktree`] says.
#[verifier::ext_equal]
pub struct PruneWorktreeView {
    pub name: Seq<char>,
    pub path: Seq<char>,
    pub bytes: u64,
    pub orphaned: bool,
    pub warning: Seq<char>,
}

impl View for PruneWorktree {
    type V = PruneWorktreeView;

    open spec fn view(&self) -> PruneWorktreeView {
        PruneWorktreeView {
            name: self.name@,
            path: self.path@,
            bytes: self.bytes,
            orphaned: self.orphaned,
            warning: self.warning@,
        }
    }
}

impl PruneWorktree {
    /// A copy.
    pub fn copy(&self) -> (r: PruneWorktree)
        ensures
            r == *self,
    {
        PruneWorktree {
            name: self.name.clone(),
            path: self.path.clone(),
            bytes: self.bytes,
            orphaned: self.orphaned,
            warning: self.warning.clone(),
        }
    }
}

/// A worktree that pruning leaves in place, and why.
#[derive(Clone, Debug, PartialEq, Eq)]
pub struct PruneSkipped {
    pub name: String,
    pub path: String,
    pub category: String,
    pub reason: String,
    pub detail: String,
}

/// What a [`PruneSkipped`] says.
#[verifier::ext_equal]
pub struct PruneSkippedView {
    pub name: Seq<char>,
    pub path: Seq<char>,
    pub category: Seq<char>,
    pub reason: Seq<char>,
    pub detail: Seq<char>,
}

impl View for PruneSkipped {
    type V = PruneSkippedView;

    open spec fn view(&self) -> PruneSkippedView {
        PruneSkippedView {
            name: self.name@,
            path: self.path@,
            category: self.category@,
            reason: self.reason@,
            detail: self.detail@,
        }
    }
}

impl PruneSkipped {
    /// A copy.
    pub fn copy(&self) -> (r: PruneSkipped)
        ensures
            r == *self,
    {
        PruneSkipped {
            name: self.name.clone(),
            path: self.path.clone(),
            category: self.category.clone(),
            reason: self.reason.clone(),
            detail: self.detail.clone(),
        }
    }
}

/// The outcome of a prune.
#[derive(Clone, Debug, PartialEq, Eq)]
pub struct PruneResult {
    pub dry_run: bool,
    pub candidates: Vec<PruneWorktree>,
    pub pruned: Vec<PruneWorktree>,
    pub skipped: Vec<PruneSkipped>,
    /// Worktrees whose removal failed. They stay in the state.
    pub errors: Vec<CleanupError>,
    pub reclaimable_bytes: u64,
    pub freed_bytes: u64,
}

impl Default for PruneResult {
    fn default() -> (r: PruneResult)
        ensures
            !r.dry_run,
            r.candidates@.len() == 0,
            r.pruned@.len() == 0,
            r.skipped@.len() == 0,
            r.errors@.len() == 0,
            r.reclaimable_bytes == 0,
            r.freed_bytes == 0,
    {
        PruneResult {
            dry_run: false,
            candidates: Vec::new(),
            pruned: Vec::new(),
            skipped: Vec::new(),
            errors: Vec::new(),
            reclaimable_bytes: 0,
            freed_bytes: 0,
        }
    }
}

/// Options of a prune. Without a word it is a dry run.
#[derive(Clone, Debug, PartialEq, Eq)]
pub struct PruneOptions {
    pub dry_run: bool,
    pub prune_orphans: bool,
    pub pre_destroy: Vec<String>,
}

impl Default for PruneOptions {
    fn default() -> (r: PruneOptions)
        ensures
            r.dry_run,
            !r.prune_orphans,
            r.pre_destroy@.len() == 0,
    {
        PruneOptions { dry_run: true, prune_orphans: false, pre_destroy: Vec::new() }
    }
}

pub const PRUNE_SKIP_UNCOMMITTED: &'static str = "uncommitted changes";

pub const PRUNE_SKIP_UNMERGED: &'static str = "unmerged";

pub const PRUNE_SKIP_ORPHANED: &'static str = "orphaned (backing repository missing)";

pub const PRUNE_SKIP_ORIGIN_UNREACHABLE: &'static str = "origin unreachable (cannot verify)";

pub const PRUNE_SKIP_CANNOT_VERIFY: &'static str = "cannot verify worktree";

pub const PRUNE_SKIP_CANNOT_CHECK_PROCESSES: &'static str = "cannot check processes";

pub const PRUNE_SKIP_CANNOT_MEASURE_SIZE: &'static str = "cannot measure size";

pub const PRUNE_SKIP_CLEANUP_FAILED: &'static str = "cleanup failed";

pub const PRUNE_SKIP_REMOVE_FAILED: &'static str = "remove failed";

pub const PRUNE_SKIP_IN_USE: &'static str = "in use";

pub const PRUNE_ORPHAN_WARNING: &'static str = "content could not be verified";

// ---------- looking at one worktree ----------

/// What is to be found out about a worktree.
#[derive(Clone, Copy, Debug, PartialEq, Eq, Structural)]
pub enum PruneQuery {
    /// Whether its backing repository is gone.
    BackingMissing,
    /// Whether it has changes.
    Dirty,
    /// Whether its backing repository is gone, now that git could not tell
    /// whether it has changes.
    BackingMissingAfterFailure,
    /// Whether its HEAD is merged into the default ref.
    Merged,
    /// How large it is.
    Size,
}

/// What was found out about a worktree so far; an error with its text.
#[derive(Debug, PartialEq, Eq)]
pub struct PruneFacts {
    pub backing_missing: Option<bool>,
    pub dirty: Option<Result<bool, String>>,
    pub backing_missing_after_failure: Option<bool>,
    pub merged: Option<Result<bool, String>>,
    pub size: Option<Result<u64, String>>,
}

impl Default for PruneFacts {
    fn default() -> (r: PruneFacts)
        ensures
            r.backing_missing is None,
            r.dirty is None,
            r.backing_missing_after_failure is None,
            r.merged is None,
            r.size is None,
    {
        PruneFacts {
            backing_missing: None,
            dirty: None,
            backing_missing_after_failure: None,
            merged: None,
            size: None,
        }
    }
}

/// The next step with a worktree.
#[derive(Clone, Debug, PartialEq, Eq)]
pub enum PruneStep {
    /// Somebody has it: it is not looked at.
    Ignore,
    /// Find this out first.
    Ask(PruneQuery),
    /// It stays, and why.
    Skip(PruneSkipped),
    /// It can be pruned.
    Candidate(PruneWorktree),
}

/// What a [`PruneStep`] says.
pub enum PruneStepView {
    Ignore,
    Ask(PruneQuery),
    Skip(PruneSkippedView),
    Candidate(PruneWorktreeView),
}

impl View for PruneStep {
    type V = PruneStepView;

    open spec fn view(&self) -> PruneStepView {
        match self {
            PruneStep::Ignore => PruneStepView::Ignore,
            PruneStep::Ask(q) => PruneStepView::Ask(*q),
            PruneStep::Skip(s) => PruneStepView::Skip(s@),
            PruneStep::Candidate(w) => PruneStepView::Candidate(w@),
        }
    }
}

/// The skip of a worktree.
pub open spec fn prune_skip(
    e: EntryView,
    category: Seq<char>,
    reason: Seq<char>,
    detail: Seq<char>,
) -> PruneStepView {
    PruneStepView::Skip(
        PruneSkippedView { name: e.name, path: e.path, category, reason, detail },
    )
}

/// The step of a worktree that only its size keeps from being pruned.
pub open spec fn measured(e: EntryView, f: PruneFacts, orphaned: bool) -> PruneStepView {
    match f.size {
        None => PruneStepView::Ask(PruneQuery::Size),
        Some(Ok(bytes)) => PruneStepView::Candidate(
            PruneWorktreeView {
                name: e.name,
                path: e.path,
                bytes,
                orphaned,
                warning: if orphaned {
                    PRUNE_ORPHAN_WARNING@
                } else {
                    seq![]
                },
            },
        ),
        Some(Err(err)) => prune_skip(
            e,
            PRUNE_SKIP_CANNOT_MEASURE_SIZE@,
            "cannot measure size"@,
            err@,
        ),
    }
}

/// The step of an idle worktree, by what was found out about it so far: its
/// backing repository, its changes, its merge into the default ref, its size.
/// `default_ref` is none where it cannot be told.
pub open spec fn idle_step(
    e: EntryView,
    prune_orphans: bool,
    default_ref: Option<Seq<char>>,
    f: PruneFacts,
) -> PruneStepView {
    match f.backing_missing {
        None => PruneStepView::Ask(PruneQuery::BackingMissing),
        Some(true) => if prune_orphans {
            measured(e, f, true)
        } else {
            prune_skip(e, PRUNE_SKIP_ORPHANED@, PRUNE_ORPHAN_WARNING@, seq![])
        },
        Some(false) => match f.dirty {
            None => PruneStepView::Ask(PruneQuery::Dirty),
            Some(Ok(true)) => prune_skip(
                e,
                PRUNE_SKIP_UNCOMMITTED@,
                PRUNE_SKIP_UNCOMMITTED@,
                seq![],
            ),
            Some(Err(err)) => match f.backing_missing_after_failure {
                None => PruneStepView::Ask(PruneQuery::BackingMissingAfterFailure),
                Some(true) => prune_skip(e, PRUNE_SKIP_ORPHANED@, PRUNE_ORPHAN_WARNING@, seq![]),
                Some(false) => prune_skip(
                    e,
                    PRUNE_SKIP_CANNOT_VERIFY@,
                    "cannot check status"@,
                    err@,
                ),
            },
            Some(Ok(false)) => match default_ref {
                None => prune_skip(
                    e,
                    PRUNE_SKIP_ORIGIN_UNREACHABLE@,
                    "cannot verify default branch"@,
                    seq![],
                ),
                Some(name) => match f.merged {
                    None => PruneStepView::Ask(PruneQuery::Merged),
                    Some(Ok(false)) => prune_skip(
                        e,
                        PRUNE_SKIP_UNMERGED@,
                        "HEAD not merged into "@ + name,
                        seq![],
                    ),
                    Some(Err(err)) => prune_skip(
                        e,
                        PRUNE_SKIP_CANNOT_VERIFY@,
                        "cannot prove HEAD is merged into default branch"@,
                        err@,
                    ),
                    Some(Ok(true)) => measured(e, f, false),
                },
            },
        },
    }
}

/// The step of a worktree: it is not looked at while somebody has it.
pub open spec fn prune_step_spec(
    e: EntryView,
    rs: Seq<ProcessRecord>,
    dir: Option<Seq<char>>,
    prune_orphans: bool,
    default_ref: Option<Seq<char>>,
    f: PruneFacts,
) -> PruneStepView {
    if idle(e, rs, dir) {
        idle_step(e, prune_orphans, default_ref, f)
    } else {
        PruneStepView::Ignore
    }
}

fn skip_step(wt: &WorktreeEntry, category: &str, reason: &str, detail: &str) -> (r: PruneStep)
    ensures
        r@ == prune_skip(wt@, category@, reason@, detail@),
{
    PruneStep::Skip(
        PruneSkipped {
            name: wt.name.clone(),
            path: wt.path.clone(),
            category: category.to_owned(),
            reason: reason.to_owned(),
            detail: detail.to_owned(),
        },
    )
}

fn measure_step(wt: &WorktreeEntry, facts: &PruneFacts, orphaned: bool) -> (r: PruneStep)
    ensures
        r@ == measured(wt@, *facts, orphaned),
{
    match &facts.size {
        None => PruneStep::Ask(PruneQuery::Size),
        Some(Ok(bytes)) => PruneStep::Candidate(
            PruneWorktree {
                name: wt.name.clone(),
                path: wt.path.clone(),
                bytes: *bytes,
                orphaned,
                warning: if orphaned {
                    PRUNE_ORPHAN_WARNING.to_owned()
                } else {
                    String::new()
                },
            },
        ),
        Some(Err(e)) => skip_step(
            wt,
            PRUNE_SKIP_CANNOT_MEASURE_SIZE,
            "cannot measure size",
            e,
        ),
    }
}

/// The next step with an idle worktree.
pub fn analyze_idle_worktree(
    wt: &WorktreeEntry,
    prune_orphans: bool,
    default_ref: Option<&str>,
    facts: &PruneFacts,
) -> (r: PruneStep)
    ensures
        r@ == idle_step(wt@, prune_orphans, opt_str_view(default_ref), *facts),
{
    proof {
        reveal_strlit("");
        assert(""@ =~= Seq::<char>::empty());
    }
    let backing_missing: bool = match facts.backing_missing {
        Some(b) => b,
        None => return PruneStep::Ask(PruneQuery::BackingMissing),
    };
    if backing_missing {
        if !prune_orphans {
            return skip_step(wt, PRUNE_SKIP_ORPHANED, PRUNE_ORPHAN_WARNING, "");
        }
        return measure_step(wt, facts, true);
    }
    match &facts.dirty {
        None => return PruneStep::Ask(PruneQuery::Dirty),
        Some(Ok(true)) => return skip_step(wt, PRUNE_SKIP_UNCOMMITTED, PRUNE_SKIP_UNCOMMITTED, ""),
        Some(Ok(false)) => {},
        Some(Err(e)) => {
            return match facts.backing_missing_after_failure {
                None => PruneStep::Ask(PruneQuery::BackingMissingAfterFailure),
                Some(true) => skip_step(wt, PRUNE_SKIP_ORPHANED, PRUNE_ORPHAN_WARNING, ""),
                Some(false) => skip_step(wt, PRUNE_SKIP_CANNOT_VERIFY, "cannot check status", e),
            };
        },
    }
    let name: &str = match default_ref {
        Some(name) => name,
        None => return skip_step(
            wt,
            PRUNE_SKIP_ORIGIN_UNREACHABLE,
            "cannot verify default branch",
            "",
        ),
    };
    match &facts.merged {
        None => PruneStep::Ask(PruneQuery::Merged),
        Some(Ok(true)) => measure_step(wt, facts, false),
        Some(Ok(false)) => {
            let mut reason = "HEAD not merged into ".to_owned();
            reason.append(name);
            skip_step(wt, PRUNE_SKIP_UNMERGED, &reason, "")
        },
        Some(Err(e)) => skip_step(
            wt,
            PRUNE_SKIP_CANNOT_VERIFY,
            "cannot prove HEAD is merged into default branch",
            e,
        ),
    }
}

/// The next step with a worktree. `dir` is its resolved path.
pub fn prune_step(
    wt: &WorktreeEntry,
    process: &ProcessTable,
    dir: Option<&str>,
    prune_orphans: bool,
    default_ref: Option<&str>,
    facts: &PruneFacts,
) -> (r: PruneStep)
    ensures
        r@ == prune_step_spec(
            wt@,
            process.records@,
            opt_str_view(dir),
            prune_orphans,
            opt_str_view(default_ref),
            *facts,
        ),
{
    if wt.destroying || wt.leased || owner_alive(wt, process) {
        return PruneStep::Ignore;
    }
    let in_use: bool = match process.is_worktree_in_use(dir) {
        Ok(b) => b,
        Err(_) => true,
    };
    if in_use {
        return PruneStep::Ignore;
    }
    analyze_idle_worktree(wt, prune_orphans, default_ref, facts)
}

/// The ref that worktrees must be merged into, by what fetching and resolving
/// it gave. A failure names its category; without origin that is another.
pub fn resolve_prune_default_ref(
    fetched: &Result<(), GitError>,
    merge_ref: &Result<String, GitError>,
    has_origin: bool,
) -> (r: Result<String, String>)
    ensures
        match (*fetched, *merge_ref) {
            (Err(e), _) => r matches Err(text) && text@ == "origin unreachable (cannot verify): "@
                + e.message_spec(),
            (Ok(_), Ok(name)) => r matches Ok(n) && n@ == name@,
            (Ok(_), Err(e)) => r matches Err(text) && text@ == (if has_origin {
                PRUNE_SKIP_ORIGIN_UNREACHABLE@
            } else {
                PRUNE_SKIP_CANNOT_VERIFY@
            }) + ": "@ + e.message_spec(),
        },
{
    match fetched {
        Err(e) => {
            let mut s = "origin unreachable (cannot verify): ".to_owned();
            s.append(&e.text());
            return Err(s);
        },
        Ok(_) => {},
    }
    match merge_ref {
        Ok(name) => Ok(name.clone()),
        Err(e) => {
            let mut s = if has_origin {
                PRUNE_SKIP_ORIGIN_UNREACHABLE.to_owned()
            } else {
                PRUNE_SKIP_CANNOT_VERIFY.to_owned()
            };
            s.append(": ");
            s.append(&e.text());
            Err(s)
        },
    }
}

// ---------- the plan ----------

/// The candidates among the steps, in order.
pub open spec fn candidates_of(steps: Seq<PruneStep>) -> Seq<PruneWorktree>
    decreases steps.len(),
{
    if steps.len() == 0 {
        seq![]
    } else {
        let rest = candidates_of(steps.drop_last());
        match steps.last() {
            PruneStep::Candidate(w) => rest.push(w),
            _ => rest,
        }
    }
}

/// The skips among the steps, in order.
pub open spec fn skips_of(steps: Seq<PruneStep>) -> Seq<PruneSkipped>
    decreases steps.len(),
{
    if steps.len() == 0 {
        seq![]
    } else {
        let rest = skips_of(steps.drop_last());
        match steps.last() {
            PruneStep::Skip(s) => rest.push(s),
            _ => rest,
        }
    }
}

/// The size of all the worktrees together.
pub open spec fn prune_bytes(ws: Seq<PruneWorktree>) -> nat
    decreases ws.len(),
{
    if ws.len() == 0 {
        0
    } else {
        prune_bytes(ws.drop_last()) + ws.last().bytes as nat
    }
}

proof fn lemma_prune_bytes_prefix(ws: Seq<PruneWorktree>, i: int)
    requires
        0 <= i <= ws.len(),
    ensures
        prune_bytes(ws.take(i)) <= prune_bytes(ws),
    decreases ws.len() - i,
{
    if i == ws.len() {
        assert(ws.take(i) =~= ws);
    } else {
        lemma_prune_bytes_prefix(ws, i + 1);
        assert(ws.take(i + 1).drop_last() =~= ws.take(i));
    }
}

/// The size of all the worktrees together.
pub fn sum_prune_bytes(ws: &Vec<PruneWorktree>) -> (r: u64)
    requires
        prune_bytes(ws@) <= u64::MAX,
    ensures
        r == prune_bytes(ws@),
{
    let mut sum: u64 = 0;
    let mut i: usize = 0;
    while i < ws.len()
        invariant
            i <= ws.len(),
            prune_bytes(ws@) <= u64::MAX,
            sum == prune_bytes(ws@.take(i as int)),
        decreases ws.len() - i,
    {
        proof {
            assert(ws@.take(i + 1).drop_last() =~= ws@.take(i as int));
            lemma_prune_bytes_prefix(ws@, i + 1);
        }
        sum = sum + ws[i].bytes;
        i += 1;
    }
    assert(ws@.take(ws.len() as int) =~= ws@);
    sum
}

/// What a prune would do, by the last step with each worktree. Nothing is
/// pruned yet.
pub fn plan_prune(dry_run: bool, steps: &Vec<PruneStep>) -> (r: PruneResult)
    requires
        prune_bytes(candidates_of(steps@)) <= u64::MAX,
    ensures
        r.dry_run == dry_run,
        r.candidates@ == candidates_of(steps@),
        r.skipped@ == skips_of(steps@),
        r.reclaimable_bytes == prune_bytes(candidates_of(steps@)),
        r.pruned@.len() == 0,
        r.errors@.len() == 0,
        r.freed_bytes == 0,
{
    let mut result = PruneResult::default();
    result.dry_run = dry_run;
    let mut i: usize = 0;
    while i < steps.len()
        invariant
            i <= steps.len(),
            result.dry_run == dry_run,
            result.candidates@ =~= candidates_of(steps@.take(i as int)),
            result.skipped@ =~= skips_of(steps@.take(i as int)),
            result.pruned@.len() == 0,
            result.errors@.len() == 0,
            result.freed_bytes == 0,
        decreases steps.len() - i,
    {
        assert(steps@.take(i + 1).drop_last() =~= steps@.take(i as int));
        assert(steps@.take(i + 1).last() == steps@[i as int]);
        match &steps[i] {
            PruneStep::Skip(s) => result.skipped.push(s.copy()),
            PruneStep::Candidate(w) => result.candidates.push(w.copy()),
            _ => {},
        }
        i += 1;
    }
    assert(steps@.take(steps.len() as int) =~= steps@);
    let bytes: u64 = sum_prune_bytes(&result.candidates);
    result.reclaimable_bytes = bytes;
    result
}

/// Whether a plan is to be carried out: not in a dry run, and not where there
/// is nothing to do.
pub fn prune_goes_on(plan: &PruneResult) -> (r: bool)
    ensures
        r == (!plan.dry_run && plan.candidates@.len() > 0),
{
    !plan.dry_run && plan.candidates.len() > 0
}

/// The plan with what came of it.
pub fn finish_prune(
    plan: PruneResult,
    pruned: Vec<PruneWorktree>,
    errors: Vec<CleanupError>,
) -> (r: PruneResult)
    requires
        prune_bytes(pruned@) <= u64::MAX,
    ensures
        r == (PruneResult {
            pruned,
            errors,
            freed_bytes: prune_bytes(pruned@) as u64,
            ..plan
        }),
{
    let freed_bytes: u64 = sum_prune_bytes(&pruned);
    PruneResult {
        dry_run: plan.dry_run,
        candidates: plan.candidates,
        pruned,
        skipped: plan.skipped,
        errors,
        reclaimable_bytes: plan.reclaimable_bytes,
        freed_bytes,
    }
}

// ---------- sizes ----------

/// `n / d`, rounded to the nearest, a tie to the even neighbour.
pub open spec fn round_even(n: nat, d: nat) -> nat
    recommends
        d > 0,
{
    let q = n / d;
    let r = n % d;
    if 2 * r < d || (2 * r == d && q % 2 == 0) {
        q
    } else {
        q + 1
    }
}

/// 2 to the power of 53.
pub const DOUBLE_LIMIT: u64 = 9_007_199_254_740_992;

/// The smallest power of two times `d` that brings `n` below the precision of
/// a double.
pub open spec fn double_scale(n: nat, d: nat) -> nat
    decreases n / d,
    via double_scale_decreases
{
    if d == 0 || n / d < DOUBLE_LIMIT {
        d
    } else {
        double_scale(n, 2 * d)
    }
}

#[via_fn]
proof fn double_scale_decreases(n: nat, d: nat) {
    if d > 0 && n / d >= DOUBLE_LIMIT {
        assert(n / (2 * d) < n / d) by (nonlinear_arith)
            requires
                d > 0,
                n / d >= 1,
        ;
    }
}

/// The number as a double holds it: rounded to 53 binary digits.
pub open spec fn as_double(n: nat) -> nat {
    let d = double_scale(n, 1);
    round_even(n, d) * d
}

/// The units of sizes, each 1024 times the one before.
pub open spec fn unit_size(v: nat) -> nat {
    if v < 1024 * 1024 {
        1024
    } else if v < 1024 * 1024 * 1024 {
        1024 * 1024
    } else if v < 1024 * 1024 * 1024 * 1024 {
        1024 * 1024 * 1024
    } else {
        1024 * 1024 * 1024 * 1024
    }
}

/// The name of a unit.
pub open spec fn unit_name(size: nat) -> Seq<char> {
    if size == 1024 {
        "KiB"@
    } else if size == 1024 * 1024 {
        "MiB"@
    } else if size == 1024 * 1024 * 1024 {
        "GiB"@
    } else {
        "TiB"@
    }
}

/// A number of tenths: with one decimal, unless that is zero.
pub open spec fn tenths_text(t: nat) -> Seq<char> {
    if t % 10 == 0 {
        decimal(t / 10)
    } else {
        decimal(t / 10) + "."@ + decimal(t % 10)
    }
}

/// A size in words: whole bytes below 1024, else the largest unit that keeps
/// the number below 1024, with one decimal at most. The number is rounded as
/// a double is.
pub open spec fn size_text(bytes: nat) -> Seq<char> {
    if bytes < 1024 {
        decimal(bytes) + " B"@
    } else {
        let v = as_double(bytes);
        let u = unit_size(v);
        tenths_text(round_even(10 * v, u)) + " "@ + unit_name(u)
    }
}

fn round_even_u128(n: u128, d: u128) -> (r: u128)
    requires
        0 < d,
        d <= 0x1_0000_0000_0000_0000,
        n <= 0x10_0000_0000_0000_0000,
    ensures
        r == round_even(n as nat, d as nat),
        r <= n + 1,
{
    let q: u128 = n / d;
    let rest: u128 = n % d;
    assert(q <= n) by (nonlinear_arith)
        requires
            d > 0,
            q == n / d,
            n >= 0,
    ;
    if 2 * rest < d || (2 * rest == d && q % 2 == 0) {
        q
    } else {
        q + 1
    }
}

proof fn lemma_round_even_bound(n: nat, d: nat)
    requires
        d > 0,
    ensures
        round_even(n, d) * d <= n + d,
{
    let q = n / d;
    assert(q * d <= n) by (nonlinear_arith)
        requires
            d > 0,
            q == n / d,
    ;
    assert((q + 1) * d == q * d + d) by (nonlinear_arith);
}

/// The number as a double holds it.
fn as_double_u128(n: u64) -> (r: u128)
    ensures
        r == as_double(n as nat),
        r <= n + 4096,
{
    let mut d: u128 = 1;
    assert(n as nat / 1 == n);
    while (n as u128) / d >= DOUBLE_LIMIT as u128
        invariant
            0 < d <= 4096,
            d == 1 || (d / 2) * DOUBLE_LIMIT <= n,
            double_scale(n as nat, d as nat) == double_scale(n as nat, 1),
        decreases 4096 - d,
    {
        assert(d * DOUBLE_LIMIT <= n) by (nonlinear_arith)
            requires
                d > 0,
                (n as u128) / d >= DOUBLE_LIMIT,
        ;
        assert(d < 2048) by (nonlinear_arith)
            requires
                d * DOUBLE_LIMIT <= n,
                n <= u64::MAX,
                DOUBLE_LIMIT == 9_007_199_254_740_992,
        ;
        d = d * 2;
    }
    let m: u128 = round_even_u128(n as u128, d);
    proof {
        lemma_round_even_bound(n as nat, d as nat);
    }
    m * d
}

/// A size in words.
pub fn format_bytes(bytes: u64) -> (r: String)
    ensures
        r@ == size_text(bytes as nat),
{
    if bytes < 1024 {
        let mut s = decimal_text(bytes);
        s.append(" B");
        return s;
    }
    let v: u128 = as_double_u128(bytes);
    let (unit, name): (u128, &str) = if v < 1024 * 1024 {
        (1024, "KiB")
    } else if v < 1024 * 1024 * 1024 {
        (1024 * 1024, "MiB")
    } else if v < 1024 * 1024 * 1024 * 1024 {
        (1024 * 1024 * 1024, "GiB")
    } else {
        (1024 * 1024 * 1024 * 1024, "TiB")
    };
    let tenths: u128 = round_even_u128(10 * v, unit);
    proof {
        lemma_round_even_bound((10 * v) as nat, unit as nat);
        assert(tenths <= u64::MAX) by (nonlinear_arith)
            requires
                tenths * unit <= 10 * v + unit,
                unit >= 1024,
                v <= u64::MAX + 4096,
        ;
    }
    let t: u64 = tenths as u64;
    let mut s = decimal_text(t / 10);
    if t % 10 != 0 {
        s.append(".");
        s.append(&decimal_text(t % 10));
    }
    s.append(" ");
    s.append(name);
    s
}

// ---------- laws ----------

/// A candidate is idle, and either known to be clean and merged, or an orphan
/// that the user asked for.
pub proof fn law_prune_candidate_is_safe(
    e: EntryView,
    rs: Seq<ProcessRecord>,
    dir: Option<Seq<char>>,
    prune_orphans: bool,
    default_ref: Option<Seq<char>>,
    f: PruneFacts,
)
    requires
        prune_step_spec(e, rs, dir, prune_orphans, default_ref, f) is Candidate,
    ensures
        idle(e, rs, dir),
        !e.leased,
        f.backing_missing == Some(true) ==> prune_orphans,
        f.backing_missing == Some(false) ==> {
            &&& f.dirty == Some(Ok::<bool, String>(false))
            &&& default_ref is Some
            &&& f.merged == Some(Ok::<bool, String>(true))
        },
{
}

/// Looking at a worktree comes to an end: what is asked for is not known yet.
pub proof fn law_prune_asks_for_unknown(
    e: EntryView,
    rs: Seq<ProcessRecord>,
    dir: Option<Seq<char>>,
    prune_orphans: bool,
    default_ref: Option<Seq<char>>,
    f: PruneFacts,
)
    ensures
        prune_step_spec(e, rs, dir, prune_orphans, default_ref, f) matches PruneStepView::Ask(q)
            ==> match q {
            PruneQuery::BackingMissing => f.backing_missing is None,
            PruneQuery::Dirty => f.dirty is None,
            PruneQuery::BackingMissingAfterFailure => f.backing_missing_after_failure is None,
            PruneQuery::Merged => f.merged is None,
            PruneQuery::Size => f.size is None,
        },
{
}

/// A size below the precision of a double is not rounded before it is put
/// into words.
pub proof fn law_double_keeps_small(n: nat)
    requires
        n < DOUBLE_LIMIT,
    ensures
        as_double(n) == n,
{
    assert(n / 1 == n);
    assert(n % 1 == 0);
    assert(double_scale(n, 1) == 1);
    assert(round_even(n, 1) == n);
    assert(n * 1 == n);
}

/// A plan takes up each step once: the candidates of the plan are the
/// worktrees of the steps that are candidates, its skips those of the steps
/// that are skips, both in order, and nothing else is in either.
pub proof fn law_plan_follows_steps(steps: Seq<PruneStep>)
    ensures
        candidates_of(steps) == steps.filter_map(
            |s: PruneStep|
                match s {
                    PruneStep::Candidate(w) => Some(w),
                    _ => None,
                },
        ),
        skips_of(steps) == steps.filter_map(
            |s: PruneStep|
                match s {
                    PruneStep::Skip(k) => Some(k),
                    _ => None,
                },
        ),
    decreases steps.len(),
{
    reveal(Seq::filter_map);
    if steps.len() > 0 {
        law_plan_follows_steps(steps.drop_last());
    }
}

/// A worktree is a candidate of a plan exactly if a step says so, and it is
/// skipped exactly if a step says so; no step counts twice.
pub proof fn law_planned_exactly_if_a_step_says_so(
    steps: Seq<PruneStep>,
    w: PruneWorktree,
    k: PruneSkipped,
)
    ensures
        candidates_of(steps).contains(w) <==> steps.contains(PruneStep::Candidate(w)),
        skips_of(steps).contains(k) <==> steps.contains(PruneStep::Skip(k)),
        candidates_of(steps).len() + skips_of(steps).len() == steps.filter(
            |s: PruneStep| s is Candidate || s is Skip,
        ).len(),
    decreases steps.len(),
{
    reveal(Seq::filter);
    if steps.len() > 0 {
        let front = steps.drop_last();
        let last = steps.last();
        law_planned_exactly_if_a_step_says_so(front, w, k);
        assert(front.push(last) =~= steps);
        lemma_contains_push(front, last, PruneStep::Candidate(w));
        lemma_contains_push(front, last, PruneStep::Skip(k));
        match last {
            PruneStep::Candidate(x) => lemma_contains_push(candidates_of(front), x, w),
            PruneStep::Skip(x) => lemma_contains_push(skips_of(front), x, k),
            _ => {},
        }
    }
}

pub(crate) proof fn lemma_contains_push<A>(s: Seq<A>, last: A, x: A)
    ensures
        s.push(last).contains(x) <==> s.contains(x) || x == last,
{
    let t = s.push(last);
    if s.contains(x) {
        let i = choose|i: int| 0 <= i < s.len() && s[i] == x;
        assert(t[i] == x);
    }
    if x == last {
        assert(t[s.len() as int] == x);
    }
    if t.contains(x) {
        let i = choose|i: int| 0 <= i < t.len() && t[i] == x;
        if i < s.len() {
            assert(s[i] == x);
        }
    }
}

/// The size of a row of worktrees is the sum of their sizes.
pub proof fn law_prune_sizes_add_up(a: Seq<PruneWorktree>, b: Seq<PruneWorktree>, w: PruneWorktree)
    ensures
        prune_bytes(seq![]) == 0,
        prune_bytes(seq![w]) == w.bytes,
        prune_bytes(a + b) == prune_bytes(a) + prune_bytes(b),
    decreases b.len(),
{
    assert(seq![w].drop_last() =~= seq![]);
    if b.len() == 0 {
        assert(a + b =~= a);
    } else {
        law_prune_sizes_add_up(a, b.drop_last(), w);
        assert((a + b).drop_last() =~= a + b.drop_last());
    }
}

/// A worktree can be pruned exactly if nobody has it, its size is known, and it
/// is either clean and merged into the default ref, or an orphan that the user
/// asked for. What is pruned is that worktree, with that size.
pub proof fn law_prunable_exactly(
    e: EntryView,
    rs: Seq<ProcessRecord>,
    dir: Option<Seq<char>>,
    prune_orphans: bool,
    default_ref: Option<Seq<char>>,
    f: PruneFacts,
)
    ensures
        ({
            let step = prune_step_spec(e, rs, dir, prune_orphans, default_ref, f);
            let orphan = f.backing_missing == Some(true) && prune_orphans;
            let landed = f.backing_missing == Some(false) && f.dirty == Some(
                Ok::<bool, String>(false),
            ) && default_ref is Some && f.merged == Some(Ok::<bool, String>(true));
            &&& step is Candidate <==> idle(e, rs, dir) && (orphan || landed) && (
            f.size matches Some(Ok(_)))
            &&& step matches PruneStepView::Candidate(w) ==> w.name == e.name && w.path == e.path
                && f.size == Some(Ok::<u64, String>(w.bytes)) && w.orphaned == orphan && w.warning == (
            if orphan {
                PRUNE_ORPHAN_WARNING@
            } else {
                seq![]
            })
            &&& step is Ignore <==> !idle(e, rs, dir)
        }),
{
}

/// An idle worktree that is not pruned says why: changes, unmerged work, a
/// missing repository, or what could not be told.
pub proof fn law_prune_skips_say_why(
    e: EntryView,
    rs: Seq<ProcessRecord>,
    dir: Option<Seq<char>>,
    prune_orphans: bool,
    default_ref: Option<Seq<char>>,
    f: PruneFacts,
)
    requires
        idle(e, rs, dir),
    ensures
        ({
            let step = prune_step_spec(e, rs, dir, prune_orphans, default_ref, f);
            let here = f.backing_missing == Some(false);
            let clean = here && f.dirty == Some(Ok::<bool, String>(false));
            &&& step matches PruneStepView::Skip(k) ==> k.name == e.name && k.path == e.path
            &&& f.backing_missing == Some(true) && !prune_orphans ==> (step matches PruneStepView::Skip(
                k,
            ) && k.category == PRUNE_SKIP_ORPHANED@)
            &&& here && f.dirty == Some(Ok::<bool, String>(true)) ==> (step matches PruneStepView::Skip(
                k,
            ) && k.category == PRUNE_SKIP_UNCOMMITTED@)
            &&& clean && default_ref is None ==> (step matches PruneStepView::Skip(k) && k.category
                == PRUNE_SKIP_ORIGIN_UNREACHABLE@)
            &&& clean && default_ref is Some && f.merged == Some(Ok::<bool, String>(false)) ==> (
            step matches PruneStepView::Skip(k) && k.category == PRUNE_SKIP_UNMERGED@)
            &&& clean && default_ref is Some && (f.merged matches Some(Err(_))) ==> (
            step matches PruneStepView::Skip(k) && k.category == PRUNE_SKIP_CANNOT_VERIFY@)
            &&& clean && default_ref is Some && f.merged == Some(Ok::<bool, String>(true)) && (
            f.size matches Some(Err(_))) ==> (step matches PruneStepView::Skip(k) && k.category
                == PRUNE_SKIP_CANNOT_MEASURE_SIZE@)
            &&& here && (f.dirty matches Some(Err(_))) && f.backing_missing_after_failure == Some(
                true,
            ) ==> (step matches PruneStepView::Skip(k) && k.category == PRUNE_SKIP_ORPHANED@)
            &&& here && (f.dirty matches Some(Err(_))) && f.backing_missing_after_failure == Some(
                false,
            ) ==> (step matches PruneStepView::Skip(k) && k.category == PRUNE_SKIP_CANNOT_VERIFY@)
        }),
{
}

/// A plan holds only worktrees that nobody has and that are clean and merged,
/// or orphans that the user asked for.
pub proof fn law_only_safe_worktrees_are_planned(
    es: Seq<EntryView>,
    rs: Seq<ProcessRecord>,
    dirs: Seq<Option<Seq<char>>>,
    prune_orphans: bool,
    default_ref: Option<Seq<char>>,
    fs: Seq<PruneFacts>,
    steps: Seq<PruneStep>,
    w: PruneWorktree,
)
    requires
        steps.len() == es.len(),
        forall|i: int|
            0 <= i < es.len() ==> (#[trigger] steps[i])@ == prune_step_spec(
                es[i],
                rs,
                dirs[i],
                prune_orphans,
                default_ref,
                fs[i],
            ),
        candidates_of(steps).contains(w),
    ensures
        exists|i: int|
            0 <= i < es.len() && (#[trigger] es[i]).path == w.path@ && idle(es[i], rs, dirs[i])
                && !es[i].leased && (if fs[i].backing_missing == Some(true) {
                prune_orphans
            } else {
                fs[i].dirty == Some(Ok::<bool, String>(false)) && fs[i].merged == Some(
                    Ok::<bool, String>(true),
                )
            }),
{
    law_planned_exactly_if_a_step_says_so(steps, w, arbitrary());
    let i = choose|i: int| 0 <= i < steps.len() && steps[i] == PruneStep::Candidate(w);
    law_prunable_exactly(es[i], rs, dirs[i], prune_orphans, default_ref, fs[i]);
    assert(steps[i]@ == PruneStepView::Candidate(w@));
    assert(es[i].path == w.path@);
}

/// Rounding goes to the nearest, and in the middle to the even neighbour.
pub proof fn law_rounding_is_to_the_nearest(n: nat, d: nat)
    requires
        d > 0,
    ensures
        -(d as int) <= 2 * (round_even(n, d) * d - n) <= d,
        2 * (n % d) == d ==> round_even(n, d) % 2 == 0,
{
    let q = n / d;
    assert(n == q * d + n % d) by (nonlinear_arith)
        requires
            d > 0,
            q == n / d,
    ;
    assert((q + 1) * d == q * d + d) by (nonlinear_arith);
    assert(0 <= n % d < d) by (nonlinear_arith)
        requires
            d > 0,
    ;
}

/// The unit of a size is the largest that does not exceed it, so that the
/// number before it stays below 1024, up to the largest unit.
pub proof fn law_unit_fits(v: nat)
    requires
        v >= 1024,
    ensures
        unit_size(v) <= v,
        v < 1024 * unit_size(v) || unit_size(v) == 1024 * 1024 * 1024 * 1024,
{
}

/// A size is off by no more than the precision of a double before it is put
/// into words.
pub proof fn law_double_is_close(n: nat)
    ensures
        -(n as int) <= (as_double(n) - n) * DOUBLE_LIMIT <= n,
{
    let d = double_scale(n, 1);
    lemma_double_scale(n, 1);
    law_rounding_is_to_the_nearest(n, d);
    let off = round_even(n, d) * d - n;
    assert(as_double(n) - n == off);
    if d > 1 {
        assert(-(n as int) <= off * DOUBLE_LIMIT <= n) by (nonlinear_arith)
            requires
                -(d as int) <= 2 * off <= d,
                d * DOUBLE_LIMIT <= 2 * n,
        ;
    } else {
        assert(n % 1 == 0);
        assert(off == 0) by {
            assert(d == 1);
            assert(-1 <= 2 * off <= 1);
        }
    }
}

proof fn lemma_double_scale(n: nat, d: nat)
    requires
        d > 0,
    ensures
        double_scale(n, d) == d || double_scale(n, d) * DOUBLE_LIMIT <= 2 * n,
        double_scale(n, d) >= d,
    decreases n / d,
{
    if n / d >= DOUBLE_LIMIT {
        assert(d * DOUBLE_LIMIT <= n) by (nonlinear_arith)
            requires
                d > 0,
                n / d >= DOUBLE_LIMIT,
        ;
        assert(n / (2 * d) < n / d) by (nonlinear_arith)
            requires
                d > 0,
                n / d >= DOUBLE_LIMIT,
        ;
        lemma_double_scale(n, 2 * d);
        if double_scale(n, 2 * d) == 2 * d {
            assert(2 * d * DOUBLE_LIMIT <= 2 * n) by (nonlinear_arith)
                requires
                    d * DOUBLE_LIMIT <= n,
            ;
        }
    }
}

/// A whole number of a unit is put into words as that number and the unit.
pub proof fn law_whole_units_in_words(k: nat)
    requires
        1 <= k < 1024,
    ensures
        size_text(k) == decimal(k) + " B"@,
        size_text(k * 1024) == decimal(k) + " "@ + "KiB"@,
        size_text(k * 1048576) == decimal(k) + " "@ + "MiB"@,
        size_text(k * 1073741824) == decimal(k) + " "@ + "GiB"@,
        size_text(k * 1099511627776) == decimal(k) + " "@ + "TiB"@,
{
    lemma_whole_units(k, 1024);
    lemma_whole_units(k, 1048576);
    lemma_whole_units(k, 1073741824);
    lemma_whole_units(k, 1099511627776);
}

proof fn lemma_whole_units(k: nat, u: nat)
    requires
        1 <= k < 1024,
        u == 1024 || u == 1048576 || u == 1073741824 || u == 1099511627776,
    ensures
        size_text(k * u) == decimal(k) + " "@ + unit_name(u),
{
    let v = k * u;
    assert(u <= v < 1024 * u) by (nonlinear_arith)
        requires
            1 <= k < 1024,
            u > 0,
            v == k * u,
    ;
    law_double_keeps_small(v);
    assert(unit_size(v) == u);
    assert(10 * v == (10 * k) * u) by (nonlinear_arith)
        requires
            v == k * u,
    ;
    assert((10 * v) / u == 10 * k && (10 * v) % u == 0) by (nonlinear_arith)
        requires
            10 * v == (10 * k) * u,
            u > 0,
    ;
    assert(round_even(10 * v, u) == 10 * k);
}

/// A size is put into words with its unit, rounded to the nearest tenth of it.
pub proof fn law_sizes_are_rounded_to_a_tenth(bytes: nat) -> (q: nat)
    requires
        bytes >= 1024,
    ensures
        ({
            let v = as_double(bytes);
            let u = unit_size(v);
            &&& size_text(bytes) == tenths_text(q) + " "@ + unit_name(u)
            &&& -(u as int) <= 2 * (q * u - 10 * v) <= u
        }),
{
    let v = as_double(bytes);
    let u = unit_size(v);
    law_rounding_is_to_the_nearest(10 * v, u);
    round_even(10 * v, u)
}

/// Tenths are put into words with a point before the last digit, which is left
/// out where it is zero.
pub proof fn law_tenths_in_words(whole: nat, tenth: nat)
    requires
        tenth < 10,
    ensures
        tenth == 0 ==> tenths_text(10 * whole) == decimal(whole),
        tenth > 0 ==> tenths_text(10 * whole + tenth) == decimal(whole) + "."@ + decimal(tenth),
{
    assert((10 * whole + tenth) / 10 == whole);
    assert((10 * whole + tenth) % 10 == tenth);
}

/// What is not known yet about an idle worktree and decides on it is asked for:
/// its repository first, then its changes, its merge, and last its size.
pub proof fn law_prune_asks_for_what_decides(
    e: EntryView,
    rs: Seq<ProcessRecord>,
    dir: Option<Seq<char>>,
    prune_orphans: bool,
    default_ref: Option<Seq<char>>,
    f: PruneFacts,
)
    requires
        idle(e, rs, dir),
    ensures
        ({
            let step = prune_step_spec(e, rs, dir, prune_orphans, default_ref, f);
            let here = f.backing_missing == Some(false);
            let clean = here && f.dirty == Some(Ok::<bool, String>(false)) && default_ref is Some;
            let failed = here && (f.dirty matches Some(Err(_)));
            let goes = (f.backing_missing == Some(true) && prune_orphans) || (clean && f.merged
                == Some(Ok::<bool, String>(true)));
            &&& step == PruneStepView::Ask(PruneQuery::BackingMissing) <==> f.backing_missing is None
            &&& step == PruneStepView::Ask(PruneQuery::Dirty) <==> here && f.dirty is None
            &&& step == PruneStepView::Ask(PruneQuery::BackingMissingAfterFailure) <==> failed
                && f.backing_missing_after_failure is None
            &&& step == PruneStepView::Ask(PruneQuery::Merged) <==> clean && f.merged is None
            &&& step == PruneStepView::Ask(PruneQuery::Size) <==> goes && f.size is None
        }),
{
}

} // verus!
