//! The health report: what is found out about a pool, and how bad it is.
//!
//! Nothing here changes a pool. A report is healthy as long as no check of it
//! is an error, and strictly healthy as long as all of them are fine.

use vstd::prelude::*;
use vstd::string::*;

use crate::format::{block, join_lines, OutputFormat, Rendered};
use crate::json::{
    bool_value, distinct, json_text, list_value, members, null_value, object_value, print_json,
    print_toon, text_value, toon_text, tree_of, trees, uint_value, Tree,
};
use crate::pool::shown_processes;
use crate::process::{ProcessRecord, ProcessTable};
use crate::prune::{format_bytes, size_text};
use crate::result::{put, texts_tree, texts_value};
use crate::state::{owned, owner_alive, EntryView, State};
use crate::state_file::{parse_state, state_parsed};
use crate::text::{chars_of, decimal, decimal_text, lemma_views_push, opt_view, trim, trimmed, views};
use crate::time::Timestamp;

verus! {

broadcast use lemma_views_push;

/// How bad the finding of a check is.
#[derive(Clone, Copy, Debug, PartialEq, Eq, Structural)]
pub enum Severity {
    Okay,
    Warn,
    Error,
}

impl Severity {
    /// The name of a severity.
    pub open spec fn name_spec(self) -> Seq<char> {
        match self {
            Severity::Okay => "ok"@,
            Severity::Warn => "warn"@,
            Severity::Error => "error"@,
        }
    }

    /// The name of the severity.
    pub fn name(self) -> (r: &'static str)
        ensures
            r@ == self.name_spec(),
    {
        match self {
            Severity::Okay => "ok",
            Severity::Warn => "warn",
            Severity::Error => "error",
        }
    }

    /// The mark of a severity.
    pub open spec fn marker_spec(self) -> Seq<char> {
        match self {
            Severity::Okay => "✓"@,
            Severity::Warn => "⚠"@,
            Severity::Error => "✗"@,
        }
    }

    /// The mark of the severity.
    pub fn marker(self) -> (r: &'static str)
        ensures
            r@ == self.marker_spec(),
    {
        match self {
            Severity::Okay => "✓",
            Severity::Warn => "⚠",
            Severity::Error => "✗",
        }
    }
}

/// What one check found.
#[derive(Clone, Debug, PartialEq, Eq)]
pub struct DoctorCheck {
    pub name: &'static str,
    pub status: Severity,
    pub detail: String,
    pub count: u64,
    pub bytes: Option<u64>,
    pub affected: Vec<String>,
}

/// What a [`DoctorCheck`] says.
#[verifier::ext_equal]
pub struct CheckedView {
    pub name: Seq<char>,
    pub status: Severity,
    pub detail: Seq<char>,
    pub count: nat,
    pub bytes: Option<u64>,
    pub affected: Seq<Seq<char>>,
}

impl View for DoctorCheck {
    type V = CheckedView;

    open spec fn view(&self) -> CheckedView {
        CheckedView {
            name: self.name@,
            status: self.status,
            detail: self.detail@,
            count: self.count as nat,
            bytes: self.bytes,
            affected: views(self.affected@),
        }
    }
}

/// The whole report.
#[derive(Clone, Debug, PartialEq, Eq)]
pub struct DoctorReport {
    pub checks: Vec<DoctorCheck>,
    pub healthy: bool,
    pub strict_healthy: bool,
}

/// What the checks of a list say.
pub open spec fn check_views(v: Seq<DoctorCheck>) -> Seq<CheckedView> {
    v.map_values(|c: DoctorCheck| c@)
}

/// How many checks have a severity.
pub open spec fn with_severity(v: Seq<CheckedView>, s: Severity) -> nat
    decreases v.len(),
{
    if v.len() == 0 {
        0
    } else {
        with_severity(v.drop_last(), s) + if v.last().status == s {
            1nat
        } else {
            0nat
        }
    }
}

proof fn lemma_with_severity(v: Seq<CheckedView>, s: Severity)
    ensures
        with_severity(v, s) <= v.len(),
        with_severity(v, s) == 0 <==> forall|i: int|
            0 <= i < v.len() ==> (#[trigger] v[i]).status != s,
    decreases v.len(),
{
    if v.len() > 0 {
        let front = v.drop_last();
        lemma_with_severity(front, s);
        assert(v[v.len() - 1] == v.last());
        if with_severity(v, s) == 0 {
            assert forall|i: int| 0 <= i < v.len() implies (#[trigger] v[i]).status != s by {
                if i < front.len() {
                    assert(front[i] == v[i]);
                }
            }
        } else {
            if v.last().status != s {
                let i = choose|i: int| 0 <= i < front.len() && (#[trigger] front[i]).status == s;
                assert(v[i] == front[i]);
            }
        }
    }
}

fn count_severity(v: &Vec<DoctorCheck>, s: Severity) -> (r: u64)
    ensures
        r == with_severity(check_views(v@), s),
{
    let ghost all = check_views(v@);
    let mut n: u64 = 0;
    let mut i: usize = 0;
    while i < v.len()
        invariant
            i <= v.len(),
            all == check_views(v@),
            n == with_severity(all.take(i as int), s),
            n <= i,
        decreases v.len() - i,
    {
        assert(all.take(i + 1).drop_last() =~= all.take(i as int));
        assert(all.take(i + 1).last() == v@[i as int]@);
        if v[i].status == s {
            n += 1;
        }
        i += 1;
    }
    assert(all.take(v.len() as int) =~= all);
    n
}

impl DoctorReport {
    /// It tells of its own checks whether all is well.
    pub open spec fn wf(self) -> bool {
        &&& self.healthy == (with_severity(check_views(self.checks@), Severity::Error) == 0)
        &&& self.strict_healthy == (forall|i: int|
            0 <= i < self.checks@.len() ==> (#[trigger] self.checks@[i]).status == Severity::Okay)
    }

    /// How many checks are errors.
    pub fn error_count(&self) -> (r: u64)
        ensures
            r == with_severity(check_views(self.checks@), Severity::Error),
    {
        count_severity(&self.checks, Severity::Error)
    }

    /// How many checks are warnings.
    pub fn warn_count(&self) -> (r: u64)
        ensures
            r == with_severity(check_views(self.checks@), Severity::Warn),
    {
        count_severity(&self.checks, Severity::Warn)
    }

    /// Whether the report counts as a failure: for an error, and in strict
    /// mode for a warning too.
    pub fn failed(&self, strict: bool) -> (r: bool)
        ensures
            r == if strict {
                !self.strict_healthy
            } else {
                !self.healthy
            },
    {
        if strict {
            !self.strict_healthy
        } else {
            !self.healthy
        }
    }
}

// ---------- single checks ----------

/// A check without anything affected.
pub open spec fn plain_check(name: Seq<char>, status: Severity, detail: Seq<char>) -> CheckedView {
    CheckedView { name, status, detail, count: 0, bytes: None, affected: seq![] }
}

fn check(name: &'static str, status: Severity, detail: String) -> (r: DoctorCheck)
    ensures
        r@ == plain_check(name@, status, detail@),
{
    let r = DoctorCheck { name, status, detail, count: 0, bytes: None, affected: Vec::new() };
    assert(r@ =~= plain_check(name@, status, detail@));
    r
}

/// What is said of git, by what it printed as its version.
pub open spec fn git_check(version: Option<Seq<char>>) -> CheckedView {
    match version {
        Some(out) => plain_check("git_binary"@, Severity::Okay, trimmed(out)),
        None => plain_check("git_binary"@, Severity::Error, "git binary not found on PATH"@),
    }
}

/// The check of git, by what it printed as its version; none where it failed.
pub fn check_git_binary(version: Option<&str>) -> (r: DoctorCheck)
    ensures
        r@ == git_check(crate::text::opt_str_view(version)),
{
    match version {
        Some(out) => check("git_binary", Severity::Okay, trim(out)),
        None => check(
            "git_binary",
            Severity::Error,
            "git binary not found on PATH".to_owned(),
        ),
    }
}

/// What is said of the configuration.
pub open spec fn config_check(max_trees: u32) -> CheckedView {
    plain_check("config"@, Severity::Okay, "max_trees = "@ + decimal(max_trees as nat))
}

/// The check of the configuration, which was read before.
pub fn check_config(max_trees: u32) -> (r: DoctorCheck)
    ensures
        r@ == config_check(max_trees),
{
    let mut detail = "max_trees = ".to_owned();
    detail.append(&decimal_text(max_trees as u64));
    check("config", Severity::Okay, detail)
}

/// What was found at the place of the state file.
#[derive(Debug, PartialEq, Eq)]
pub enum StateProbe {
    Missing,
    Unreadable(String),
    Content(Vec<u8>),
}

/// What is said of the state file.
pub open spec fn state_check(path: Seq<char>, probe: StateProbe) -> CheckedView {
    match probe {
        StateProbe::Missing => plain_check("state"@, Severity::Okay, "no state file (fresh pool)"@),
        StateProbe::Unreadable(e) => CheckedView {
            affected: seq![path],
            ..plain_check("state"@, Severity::Error, "cannot read state file: "@ + e@)
        },
        StateProbe::Content(bytes) => if state_parsed(bytes@) is Some {
            plain_check("state"@, Severity::Okay, "state file parses"@)
        } else {
            CheckedView {
                affected: seq![path],
                ..plain_check(
                    "state"@,
                    Severity::Error,
                    "corrupt or truncated; recovery would mark on-disk worktrees leased"@,
                )
            }
        },
    }
}

/// The check of the state file.
pub fn check_state(path: &str, probe: &StateProbe) -> (r: DoctorCheck)
    ensures
        r@ == state_check(path@, *probe),
{
    match probe {
        StateProbe::Missing => check(
            "state",
            Severity::Okay,
            "no state file (fresh pool)".to_owned(),
        ),
        StateProbe::Unreadable(e) => {
            let mut detail = "cannot read state file: ".to_owned();
            detail.append(e);
            let mut c = check("state", Severity::Error, detail);
            c.affected.push(path.to_owned());
            assert(c@ =~= state_check(path@, *probe));
            c
        },
        StateProbe::Content(bytes) => match parse_state(bytes.as_slice()) {
            Ok(_) => check("state", Severity::Okay, "state file parses".to_owned()),
            Err(_) => {
                let mut c = check(
                    "state",
                    Severity::Error,
                    "corrupt or truncated; recovery would mark on-disk worktrees leased".to_owned(),
                );
                c.affected.push(path.to_owned());
                assert(c@ =~= state_check(path@, *probe));
                c
            },
        },
    }
}

/// What is said of something that was tried.
pub open spec fn probe_check(
    name: Seq<char>,
    fine: Seq<char>,
    failed: Seq<char>,
    error: Option<Seq<char>>,
) -> CheckedView {
    match error {
        None => plain_check(name, Severity::Okay, fine),
        Some(e) => plain_check(name, Severity::Error, failed + e),
    }
}

/// What is said of writing to the pool directory.
pub open spec fn writable_check(error: Option<Seq<char>>) -> CheckedView {
    probe_check("state_writable"@, "pool dir is writable"@, "pool dir not writable: "@, error)
}

/// The check of the pool directory, by the error of writing to it.
pub fn check_state_writable(error: &Option<String>) -> (r: DoctorCheck)
    ensures
        r@ == writable_check(opt_view(*error)),
{
    match error {
        None => check("state_writable", Severity::Okay, "pool dir is writable".to_owned()),
        Some(e) => {
            let mut detail = "pool dir not writable: ".to_owned();
            detail.append(e);
            check("state_writable", Severity::Error, detail)
        },
    }
}

/// What is said of the state lock.
pub open spec fn lock_check(error: Option<Seq<char>>) -> CheckedView {
    probe_check("lock"@, "state lock is acquirable"@, "state lock is wedged: "@, error)
}

/// The check of the state lock, by the error of taking it.
pub fn check_lock(error: &Option<String>) -> (r: DoctorCheck)
    ensures
        r@ == lock_check(opt_view(*error)),
{
    match error {
        None => check("lock", Severity::Okay, "state lock is acquirable".to_owned()),
        Some(e) => {
            let mut detail = "state lock is wedged: ".to_owned();
            detail.append(e);
            check("lock", Severity::Error, detail)
        },
    }
}

/// What is said of the disk.
pub open spec fn disk_check(low: bool, percent: Seq<char>, free: u64) -> CheckedView {
    CheckedView {
        bytes: Some(free),
        ..plain_check(
            "disk"@,
            if low {
                Severity::Warn
            } else {
                Severity::Okay
            },
            percent + "% free on pool volume"@,
        )
    }
}

/// The check of the disk, by its free share: whether that is low, the share
/// in percent as a text, and the free bytes.
pub fn check_disk(low: bool, percent: &str, free: u64) -> (r: DoctorCheck)
    ensures
        r@ == disk_check(low, percent@, free),
{
    let mut detail = percent.to_owned();
    detail.append("% free on pool volume");
    let mut c = check(
        "disk",
        if low {
            Severity::Warn
        } else {
            Severity::Okay
        },
        detail,
    );
    c.bytes = Some(free);
    assert(c@ =~= disk_check(low, percent@, free));
    c
}

// ---------- worktrees ----------

/// What is said of a group of worktrees: nothing bad as long as it is empty.
pub open spec fn group_check(
    name: Seq<char>,
    severity: Severity,
    detail: Seq<char>,
    affected: Seq<Seq<char>>,
) -> CheckedView {
    CheckedView {
        name,
        status: if affected.len() == 0 {
            Severity::Okay
        } else {
            severity
        },
        detail: if affected.len() == 0 {
            "none"@
        } else {
            detail
        },
        count: affected.len(),
        bytes: None,
        affected,
    }
}

fn check_group(name: &'static str, severity: Severity, detail: &str, affected: Vec<String>) -> (r:
    DoctorCheck)
    ensures
        r@ == group_check(name@, severity, detail@, views(affected@)),
{
    let fine = affected.len() == 0;
    let n: u64 = affected.len() as u64;
    let r = DoctorCheck {
        name,
        status: if fine {
            Severity::Okay
        } else {
            severity
        },
        detail: if fine {
            "none".to_owned()
        } else {
            detail.to_owned()
        },
        count: n,
        bytes: None,
        affected,
    };
    assert(r@ =~= group_check(name@, severity, detail@, views(affected@)));
    r
}

/// What was found out about one worktree.
#[derive(Clone, Debug, PartialEq, Eq)]
pub struct DoctorFacts {
    /// The directory without links; none where it cannot be resolved.
    pub dir: Option<String>,
    /// Its backing repository is gone.
    pub orphaned: bool,
    /// It is known to have changes.
    pub dirty: bool,
    /// Reclaiming would take it.
    pub reclaimable: bool,
    /// The size of its directory.
    pub bytes: u64,
}

/// The paths of the worktrees that have a property and are not being
/// destroyed, in order.
pub open spec fn paths_where(es: Seq<EntryView>, p: spec_fn(int) -> bool) -> Seq<Seq<char>>
    decreases es.len(),
{
    if es.len() == 0 {
        seq![]
    } else {
        let rest = paths_where(es.drop_last(), p);
        if !es.last().destroying && p(es.len() - 1) {
            rest.push(es.last().path)
        } else {
            rest
        }
    }
}

/// The worktrees whose owner is dead.
pub open spec fn dead_owners(es: Seq<EntryView>, rs: Seq<ProcessRecord>) -> Seq<Seq<char>> {
    paths_where(es, |i: int| es[i].owner_pid != 0 && !owned(es[i], rs))
}

/// The worktrees whose lease has passed its end.
pub open spec fn stale_leases(es: Seq<EntryView>, now: Timestamp) -> Seq<Seq<char>> {
    paths_where(es, |i: int| es[i].stale(now))
}

/// The worktrees whose lease has passed its end and which reclaiming would
/// take.
pub open spec fn reclaimable_leases(
    es: Seq<EntryView>,
    facts: Seq<DoctorFacts>,
    now: Timestamp,
) -> Seq<Seq<char>> {
    paths_where(es, |i: int| es[i].stale(now) && facts[i].reclaimable)
}

/// The size of the first `n` worktrees whose lease has passed its end.
pub open spec fn stale_bytes(
    es: Seq<EntryView>,
    facts: Seq<DoctorFacts>,
    now: Timestamp,
    n: nat,
) -> nat
    decreases n,
{
    if n == 0 {
        0
    } else {
        stale_bytes(es, facts, now, (n - 1) as nat) + if !es[n - 1].destroying && es[n - 1].stale(
            now,
        ) {
            facts[n - 1].bytes as nat
        } else {
            0
        }
    }
}

proof fn lemma_stale_bytes_grow(
    es: Seq<EntryView>,
    facts: Seq<DoctorFacts>,
    now: Timestamp,
    m: nat,
    n: nat,
)
    requires
        m <= n,
    ensures
        stale_bytes(es, facts, now, m) <= stale_bytes(es, facts, now, n),
    decreases n,
{
    if m < n {
        lemma_stale_bytes_grow(es, facts, now, m, (n - 1) as nat);
    }
}

/// What is said of the leases that have passed their end: how many there are,
/// how many of them reclaiming would take, and their size.
pub open spec fn stale_check(affected: Seq<Seq<char>>, reclaimable: nat, bytes: u64) -> CheckedView {
    CheckedView {
        bytes: if affected.len() == 0 {
            None
        } else {
            Some(bytes)
        },
        ..group_check(
            "stale_leases"@,
            Severity::Warn,
            decimal(affected.len()) + " ("@ + decimal(reclaimable) + " reclaimable, "@ + size_text(
                bytes as nat,
            ) + ")"@,
            affected,
        )
    }
}

/// The worktrees with a lease that holds.
pub open spec fn active_leases(es: Seq<EntryView>, now: Timestamp) -> Seq<Seq<char>> {
    paths_where(es, |i: int| es[i].leased && !es[i].stale(now))
}

/// The worktrees whose backing repository is gone.
pub open spec fn orphans(es: Seq<EntryView>, facts: Seq<DoctorFacts>) -> Seq<Seq<char>> {
    paths_where(es, |i: int| facts[i].orphaned)
}

/// The worktrees with changes.
pub open spec fn dirty_ones(es: Seq<EntryView>, facts: Seq<DoctorFacts>) -> Seq<Seq<char>> {
    paths_where(es, |i: int| facts[i].dirty)
}

/// The worktrees with a live owner or a process.
pub open spec fn used_ones(
    es: Seq<EntryView>,
    rs: Seq<ProcessRecord>,
    facts: Seq<DoctorFacts>,
) -> Seq<Seq<char>> {
    paths_where(
        es,
        |i: int|
            shown_processes(rs, opt_view(facts[i].dir)).len() > 0 || owned(es[i], rs),
    )
}

/// What is said of the worktrees of a pool.
pub open spec fn worktree_checks(
    es: Seq<EntryView>,
    rs: Seq<ProcessRecord>,
    facts: Seq<DoctorFacts>,
    now: Timestamp,
) -> Seq<CheckedView> {
    let active = active_leases(es, now).len();
    seq![
        group_check(
            "dead_owners"@,
            Severity::Warn,
            "owner reservation no longer matches a live process; heal would clear on next status/gc/run"@,
            dead_owners(es, rs),
        ),
        stale_check(
            stale_leases(es, now),
            reclaimable_leases(es, facts, now).len(),
            stale_bytes(es, facts, now, es.len()) as u64,
        ),
        CheckedView {
            count: active,
            ..plain_check("active_leases"@, Severity::Okay, decimal(active) + " valid lease(s)"@)
        },
        group_check(
            "orphans"@,
            Severity::Warn,
            "backing repository missing; use --prune-orphans --yes"@,
            orphans(es, facts),
        ),
        group_check(
            "dirty"@,
            Severity::Warn,
            "uncommitted tracked/untracked changes"@,
            dirty_ones(es, facts),
        ),
        group_check(
            "in_use"@,
            Severity::Warn,
            "live process or owner reservation"@,
            used_ones(es, rs, facts),
        ),
    ]
}

proof fn lemma_paths_where_step(es: Seq<EntryView>, p: spec_fn(int) -> bool, i: int)
    requires
        0 <= i < es.len(),
    ensures
        paths_where(es.take(i + 1), p) == if !es[i].destroying && p(i) {
            paths_where(es.take(i), p).push(es[i].path)
        } else {
            paths_where(es.take(i), p)
        },
{
    assert(es.take(i + 1).drop_last() =~= es.take(i));
    assert(es.take(i + 1).last() == es[i]);
}

fn check_stale_leases(affected: Vec<String>, reclaimable: u64, bytes: u64) -> (r: DoctorCheck)
    ensures
        r@ == stale_check(views(affected@), reclaimable as nat, bytes),
{
    let fine = affected.len() == 0;
    let mut detail = decimal_text(affected.len() as u64);
    detail.append(" (");
    detail.append(&decimal_text(reclaimable));
    detail.append(" reclaimable, ");
    detail.append(&format_bytes(bytes));
    detail.append(")");
    assert(views(affected@).len() == affected.len());
    let mut c = check_group("stale_leases", Severity::Warn, &detail, affected);
    if !fine {
        c.bytes = Some(bytes);
    }
    assert(c@ =~= stale_check(views(affected@), reclaimable as nat, bytes));
    c
}

/// The checks of the worktrees of a pool, by what was found out about each.
/// The sizes must add up.
pub fn inspect_worktrees(
    state: &State,
    process: &ProcessTable,
    facts: &Vec<DoctorFacts>,
    now: Timestamp,
) -> (r: Vec<DoctorCheck>)
    requires
        facts@.len() == state.worktrees@.len(),
        stale_bytes(state@, facts@, now, state@.len()) <= u64::MAX,
    ensures
        check_views(r@) == worktree_checks(state@, process.records@, facts@, now),
{
    let ghost es = state@;
    let ghost rs = process.records@;
    let ghost p_dead = |i: int| es[i].owner_pid != 0 && !owned(es[i], rs);
    let ghost p_stale = |i: int| es[i].stale(now);
    let ghost p_free = |i: int| es[i].stale(now) && facts@[i].reclaimable;
    let ghost p_active = |i: int| es[i].leased && !es[i].stale(now);
    let ghost p_orphan = |i: int| facts@[i].orphaned;
    let ghost p_dirty = |i: int| facts@[i].dirty;
    let ghost p_used = |i: int|
        shown_processes(rs, opt_view(facts@[i].dir)).len() > 0 || owned(es[i], rs);
    let mut dead: Vec<String> = Vec::new();
    let mut stale: Vec<String> = Vec::new();
    let mut reclaimable: u64 = 0;
    let mut bytes: u64 = 0;
    let mut active: u64 = 0;
    let mut orphaned: Vec<String> = Vec::new();
    let mut dirty: Vec<String> = Vec::new();
    let mut used: Vec<String> = Vec::new();
    let mut i: usize = 0;
    proof {
        assert(es.take(0) =~= seq![]);
        assert(views(dead@) =~= seq![]);
    }
    while i < state.worktrees.len()
        invariant
            i <= state.worktrees.len(),
            facts@.len() == state.worktrees@.len(),
            es == state@,
            rs == process.records@,
            p_dead == (|i: int| es[i].owner_pid != 0 && !owned(es[i], rs)),
            p_stale == (|i: int| es[i].stale(now)),
            p_free == (|i: int| es[i].stale(now) && facts@[i].reclaimable),
            reclaimable == paths_where(es.take(i as int), p_free).len(),
            reclaimable <= i,
            stale_bytes(es, facts@, now, es.len()) <= u64::MAX,
            bytes == stale_bytes(es, facts@, now, i as nat),
            p_active == (|i: int| es[i].leased && !es[i].stale(now)),
            p_orphan == (|i: int| facts@[i].orphaned),
            p_dirty == (|i: int| facts@[i].dirty),
            p_used == (|i: int|
                shown_processes(rs, opt_view(facts@[i].dir)).len() > 0 || owned(es[i], rs)),
            views(dead@) == paths_where(es.take(i as int), p_dead),
            views(stale@) == paths_where(es.take(i as int), p_stale),
            active == paths_where(es.take(i as int), p_active).len(),
            active <= i,
            views(orphaned@) == paths_where(es.take(i as int), p_orphan),
            views(dirty@) == paths_where(es.take(i as int), p_dirty),
            views(used@) == paths_where(es.take(i as int), p_used),
        decreases state.worktrees.len() - i,
    {
        let wt = &state.worktrees[i];
        proof {
            assert(es[i as int] == wt@);
            lemma_paths_where_step(es, p_dead, i as int);
            lemma_paths_where_step(es, p_stale, i as int);
            lemma_paths_where_step(es, p_active, i as int);
            lemma_paths_where_step(es, p_free, i as int);
            lemma_stale_bytes_grow(es, facts@, now, (i + 1) as nat, es.len());
            lemma_paths_where_step(es, p_orphan, i as int);
            lemma_paths_where_step(es, p_dirty, i as int);
            lemma_paths_where_step(es, p_used, i as int);
        }
        if !wt.destroying {
            let alive = owner_alive(wt, process);
            if wt.owner_pid != 0 && !alive {
                dead.push(wt.path.clone());
            }
            if wt.leased {
                if wt.is_stale_lease(now) {
                    stale.push(wt.path.clone());
                    bytes = bytes + facts[i].bytes;
                    if facts[i].reclaimable {
                        reclaimable += 1;
                    }
                } else {
                    active += 1;
                }
            }
            if facts[i].orphaned {
                orphaned.push(wt.path.clone());
            }
            if facts[i].dirty {
                dirty.push(wt.path.clone());
            }
            let dir: Option<&str> = match &facts[i].dir {
                Some(d) => Some(d.as_str()),
                None => None,
            };
            let running = match process.is_worktree_in_use(dir) {
                Ok(b) => b,
                Err(_) => false,
            };
            if running || alive {
                used.push(wt.path.clone());
            }
        }
        i += 1;
    }
    proof {
        assert(es.take(state.worktrees.len() as int) =~= es);
    }
    let mut detail = decimal_text(active);
    detail.append(" valid lease(s)");
    let mut lease_check = check("active_leases", Severity::Okay, detail);
    lease_check.count = active;
    let mut r: Vec<DoctorCheck> = Vec::new();
    r.push(
        check_group(
            "dead_owners",
            Severity::Warn,
            "owner reservation no longer matches a live process; heal would clear on next status/gc/run",
            dead,
        ),
    );
    r.push(check_stale_leases(stale, reclaimable, bytes));
    r.push(lease_check);
    r.push(
        check_group(
            "orphans",
            Severity::Warn,
            "backing repository missing; use --prune-orphans --yes",
            orphaned,
        ),
    );
    r.push(
        check_group(
            "dirty",
            Severity::Warn,
            "uncommitted tracked/untracked changes",
            dirty,
        ),
    );
    r.push(
        check_group("in_use", Severity::Warn, "live process or owner reservation", used),
    );
    proof {
        assert(lease_check@ =~= worktree_checks(es, rs, facts@, now)[2]);
        assert(check_views(r@) =~= worktree_checks(es, rs, facts@, now));
    }
    r
}

// ---------- the report ----------

/// What was found out for a report.
#[derive(Debug, PartialEq, Eq)]
pub struct DoctorProbes {
    /// What git printed as its version; none where it failed.
    pub git_version: Option<String>,
    pub max_trees: u32,
    pub state_path: String,
    pub state: StateProbe,
    /// Why the pool directory could not be written to.
    pub write_error: Option<String>,
    /// Why the state lock could not be taken.
    pub lock_error: Option<String>,
    pub disk_low: bool,
    /// The free share of the disk in percent.
    pub disk_percent: String,
    pub disk_free: u64,
}

/// The checks of a report, in order.
pub open spec fn report_checks(p: DoctorProbes, worktrees: Seq<CheckedView>) -> Seq<CheckedView> {
    seq![
        git_check(opt_view(p.git_version)),
        config_check(p.max_trees),
        state_check(p.state_path@, p.state),
        writable_check(opt_view(p.write_error)),
        lock_check(opt_view(p.lock_error)),
    ] + worktrees + seq![disk_check(p.disk_low, p.disk_percent@, p.disk_free)]
}

/// The health report of a pool.
pub fn run_doctor(
    probes: &DoctorProbes,
    state: &State,
    process: &ProcessTable,
    facts: &Vec<DoctorFacts>,
    now: Timestamp,
) -> (r: DoctorReport)
    requires
        facts@.len() == state.worktrees@.len(),
        stale_bytes(state@, facts@, now, state@.len()) <= u64::MAX,
    ensures
        check_views(r.checks@) == report_checks(
            *probes,
            worktree_checks(state@, process.records@, facts@, now),
        ),
        r.wf(),
{
    let version: Option<&str> = match &probes.git_version {
        Some(v) => Some(v.as_str()),
        None => None,
    };
    let mut checks: Vec<DoctorCheck> = Vec::new();
    checks.push(check_git_binary(version));
    checks.push(check_config(probes.max_trees));
    checks.push(check_state(&probes.state_path, &probes.state));
    checks.push(check_state_writable(&probes.write_error));
    checks.push(check_lock(&probes.lock_error));
    let ghost head = checks@;
    let mut more = inspect_worktrees(state, process, facts, now);
    let ghost middle = more@;
    checks.append(&mut more);
    checks.push(check_disk(probes.disk_low, &probes.disk_percent, probes.disk_free));
    proof {
        assert(check_views(checks@) =~= check_views(head) + check_views(middle) + seq![
            disk_check(probes.disk_low, probes.disk_percent@, probes.disk_free),
        ]);
        assert(check_views(checks@) =~= report_checks(
            *probes,
            worktree_checks(state@, process.records@, facts@, now),
        ));
    }
    report_of(checks)
}

/// The report of these checks.
fn report_of(checks: Vec<DoctorCheck>) -> (r: DoctorReport)
    ensures
        r.checks == checks,
        r.wf(),
{
    let mut healthy = true;
    let mut strict = true;
    let mut i: usize = 0;
    while i < checks.len()
        invariant
            i <= checks.len(),
            healthy == (forall|j: int|
                0 <= j < i ==> (#[trigger] checks@[j]).status != Severity::Error),
            strict == (forall|j: int|
                0 <= j < i ==> (#[trigger] checks@[j]).status == Severity::Okay),
        decreases checks.len() - i,
    {
        if checks[i].status == Severity::Error {
            healthy = false;
        }
        if checks[i].status != Severity::Okay {
            strict = false;
        }
        i += 1;
    }
    proof {
        let all = check_views(checks@);
        lemma_with_severity(all, Severity::Error);
        assert forall|j: int| 0 <= j < all.len() implies (#[trigger] all[j]).status
            == checks@[j].status by {}
        if !healthy {
            let j = choose|j: int|
                0 <= j < checks@.len() && (#[trigger] checks@[j]).status == Severity::Error;
            assert(all[j].status == Severity::Error);
        }
    }
    DoctorReport { checks, healthy, strict_healthy: strict }
}

// ---------- as JSON ----------

/// A size or null.
pub open spec fn size_or_null(n: Option<u64>) -> Tree {
    match n {
        Some(x) => Tree::Int(x as int),
        None => Tree::Null,
    }
}

/// A check as JSON.
pub open spec fn check_tree(c: CheckedView) -> Tree {
    Tree::Object(
        seq![
            ("name"@, Tree::Text(c.name)),
            ("status"@, Tree::Text(c.status.name_spec())),
            ("detail"@, Tree::Text(c.detail)),
            ("count"@, Tree::Int(c.count as int)),
            ("bytes"@, size_or_null(c.bytes)),
            ("affected"@, texts_tree(c.affected)),
        ],
    )
}

/// A report as JSON.
pub open spec fn report_tree(r: DoctorReport) -> Tree {
    Tree::Object(
        seq![
            ("healthy"@, Tree::Bool(r.healthy)),
            ("strict_healthy"@, Tree::Bool(r.strict_healthy)),
            (
                "checks"@,
                Tree::List(check_views(r.checks@).map_values(|c: CheckedView| check_tree(c))),
            ),
        ],
    )
}

proof fn lemma_check_keys(ms: Seq<(Seq<char>, Tree)>)
    requires
        ms.len() == 6,
        ms[0].0 == "name"@,
        ms[1].0 == "status"@,
        ms[2].0 == "detail"@,
        ms[3].0 == "count"@,
        ms[4].0 == "bytes"@,
        ms[5].0 == "affected"@,
    ensures
        distinct(ms),
{
    reveal_strlit("name");
    reveal_strlit("status");
    reveal_strlit("detail");
    reveal_strlit("count");
    reveal_strlit("bytes");
    reveal_strlit("affected");
    assert("status"@[0] != "detail"@[0]);
    assert("count"@[0] != "bytes"@[0]);
    assert forall|i: int, j: int| 0 <= i < j < ms.len() implies (#[trigger] ms[i]).0 != (
    #[trigger] ms[j]).0 by {
        let a = ms[i].0;
        let b = ms[j].0;
        assert(a.len() != b.len() || a[0] != b[0]);
    }
}

proof fn lemma_report_keys(ms: Seq<(Seq<char>, Tree)>)
    requires
        ms.len() == 3,
        ms[0].0 == "healthy"@,
        ms[1].0 == "strict_healthy"@,
        ms[2].0 == "checks"@,
    ensures
        distinct(ms),
{
    reveal_strlit("healthy");
    reveal_strlit("strict_healthy");
    reveal_strlit("checks");
    assert forall|i: int, j: int| 0 <= i < j < ms.len() implies (#[trigger] ms[i]).0 != (
    #[trigger] ms[j]).0 by {
        let a = ms[i].0;
        let b = ms[j].0;
        assert(a.len() != b.len());
    }
}

fn check_value(c: &DoctorCheck) -> (r: serde_json::Value)
    ensures
        tree_of(r) == check_tree(c@),
{
    let bytes = match c.bytes {
        Some(n) => uint_value(n),
        None => null_value(),
    };
    let mut ms: Vec<(String, serde_json::Value)> = Vec::new();
    put(&mut ms, "name", text_value(c.name));
    put(&mut ms, "status", text_value(c.status.name()));
    put(&mut ms, "detail", text_value(&c.detail));
    put(&mut ms, "count", uint_value(c.count));
    put(&mut ms, "bytes", bytes);
    put(&mut ms, "affected", texts_value(&c.affected));
    proof {
        lemma_check_keys(members(ms@));
        assert(members(ms@) =~= check_tree(c@)->Object_0);
    }
    object_value(ms)
}

/// A report as JSON.
pub fn report_json(r: &DoctorReport) -> (v: serde_json::Value)
    ensures
        tree_of(v) == report_tree(*r),
{
    let ghost all = check_views(r.checks@).map_values(|c: CheckedView| check_tree(c));
    let mut items: Vec<serde_json::Value> = Vec::new();
    let mut i: usize = 0;
    while i < r.checks.len()
        invariant
            i <= r.checks.len(),
            all == check_views(r.checks@).map_values(|c: CheckedView| check_tree(c)),
            trees(items@) =~= all.take(i as int),
        decreases r.checks.len() - i,
    {
        let ghost before = items@;
        let x = check_value(&r.checks[i]);
        items.push(x);
        assert(trees(items@) =~= trees(before).push(tree_of(x)));
        i += 1;
    }
    assert(all.take(r.checks.len() as int) =~= all);
    let mut ms: Vec<(String, serde_json::Value)> = Vec::new();
    put(&mut ms, "healthy", bool_value(r.healthy));
    put(&mut ms, "strict_healthy", bool_value(r.strict_healthy));
    put(&mut ms, "checks", list_value(items));
    proof {
        lemma_report_keys(members(ms@));
        assert(members(ms@) =~= report_tree(*r)->Object_0);
    }
    object_value(ms)
}

// ---------- as text ----------

/// The name of a check for people: blanks in place of underscores.
pub open spec fn shown_name(name: Seq<char>) -> Seq<char> {
    name.map_values(
        |c: char|
            if c == '_' {
                ' '
            } else {
                c
            },
    )
}

/// The line of a check.
pub open spec fn check_line(c: CheckedView) -> Seq<char> {
    "  "@ + c.status.marker_spec() + " "@ + shown_name(c.name) + ": "@ + c.detail
}

/// The lines of a report.
pub open spec fn report_lines(r: DoctorReport) -> Seq<Seq<char>> {
    let all = check_views(r.checks@);
    seq!["🌳 treehouse doctor"@] + all.map_values(|c: CheckedView| check_line(c)) + seq![
        "Doctor: "@ + decimal(with_severity(all, Severity::Error)) + " error(s), "@ + decimal(
            with_severity(all, Severity::Warn),
        ) + " warning(s)"@,
    ]
}

/// What a report writes to the output.
pub open spec fn report_out(format: OutputFormat, r: DoctorReport) -> Seq<char> {
    match format {
        OutputFormat::Human => block(report_lines(r)),
        OutputFormat::Json => json_text(report_tree(r)) + "\n"@,
        OutputFormat::Toon => toon_text(report_tree(r)) + "\n"@,
    }
}

fn name_words(name: &str) -> (r: String)
    ensures
        r@ == shown_name(name@),
{
    let chars = chars_of(name);
    let mut t = String::new();
    let mut i: usize = 0;
    while i < chars.len()
        invariant
            i <= chars.len(),
            chars@ == name@,
            t@ =~= shown_name(name@).take(i as int),
        decreases chars.len() - i,
    {
        proof {
            reveal_strlit(" ");
        }
        if chars[i] == '_' {
            t.append(" ");
        } else {
            t.append(name.substring_char(i, i + 1));
        }
        i += 1;
    }
    t
}

fn check_row(c: &DoctorCheck) -> (r: String)
    ensures
        r@ == check_line(c@),
{
    let mut t = "  ".to_owned();
    t.append(c.status.marker());
    t.append(" ");
    t.append(&name_words(c.name));
    t.append(": ");
    t.append(&c.detail);
    t
}

/// The text of a report in a form.
pub fn render_report(format: OutputFormat, r: &DoctorReport) -> (t: Rendered)
    ensures
        t.out@ == report_out(format, *r),
        t.err@ == Seq::<char>::empty(),
{
    let out = match format {
        OutputFormat::Json => {
            let mut s = print_json(&report_json(r));
            s.append("\n");
            s
        },
        OutputFormat::Toon => {
            let mut s = print_toon(report_json(r));
            s.append("\n");
            s
        },
        OutputFormat::Human => {
            let ghost all = check_views(r.checks@);
            let ghost rows = all.map_values(|c: CheckedView| check_line(c));
            let mut lines: Vec<String> = Vec::new();
            lines.push("🌳 treehouse doctor".to_owned());
            let mut i: usize = 0;
            assert(views(lines@) =~= seq!["🌳 treehouse doctor"@] + rows.take(0));
            while i < r.checks.len()
                invariant
                    i <= r.checks.len(),
                    rows == check_views(r.checks@).map_values(|c: CheckedView| check_line(c)),
                    views(lines@) == seq!["🌳 treehouse doctor"@] + rows.take(i as int),
                decreases r.checks.len() - i,
            {
                let row = check_row(&r.checks[i]);
                lines.push(row);
                assert(views(lines@) =~= seq!["🌳 treehouse doctor"@] + rows.take(i + 1));
                i += 1;
            }
            assert(rows.take(r.checks.len() as int) =~= rows);
            let mut last = "Doctor: ".to_owned();
            last.append(&decimal_text(r.error_count()));
            last.append(" error(s), ");
            last.append(&decimal_text(r.warn_count()));
            last.append(" warning(s)");
            lines.push(last);
            assert(views(lines@) =~= report_lines(*r));
            join_lines(&lines)
        },
    };
    Rendered { out, err: String::new() }
}

// ---------- laws ----------

/// A report that is strictly healthy is healthy; it is healthy exactly if it
/// has no error, and strictly healthy exactly if it has neither an error nor
/// a warning.
pub proof fn law_health_by_counts(r: DoctorReport)
    requires
        r.wf(),
    ensures
        r.strict_healthy ==> r.healthy,
        r.healthy <==> with_severity(check_views(r.checks@), Severity::Error) == 0,
        r.strict_healthy <==> with_severity(check_views(r.checks@), Severity::Error) == 0
            && with_severity(check_views(r.checks@), Severity::Warn) == 0,
{
    let all = check_views(r.checks@);
    lemma_with_severity(all, Severity::Error);
    lemma_with_severity(all, Severity::Warn);
    assert forall|j: int| 0 <= j < all.len() implies (#[trigger] all[j]).status
        == r.checks@[j].status by {}
    if with_severity(all, Severity::Error) == 0 && with_severity(all, Severity::Warn) == 0 {
        assert forall|i: int| 0 <= i < r.checks@.len() implies (#[trigger] r.checks@[i]).status
            == Severity::Okay by {
            assert(all[i].status != Severity::Error && all[i].status != Severity::Warn);
        }
    }
    if r.strict_healthy {
        assert forall|j: int| 0 <= j < all.len() implies (#[trigger] all[j]).status
            == Severity::Okay by {
            assert(r.checks@[j].status == Severity::Okay);
        }
    }
}

/// Worktrees never make a report unhealthy: what is found of them is a warning
/// at worst.
pub proof fn law_worktrees_are_warnings_at_worst(
    es: Seq<EntryView>,
    rs: Seq<ProcessRecord>,
    facts: Seq<DoctorFacts>,
    now: Timestamp,
)
    ensures
        forall|i: int|
            0 <= i < worktree_checks(es, rs, facts, now).len() ==> (#[trigger] worktree_checks(
                es,
                rs,
                facts,
                now,
            )[i]).status != Severity::Error,
{
}

/// A report has twelve checks, always the same ones in the same order.
pub proof fn law_twelve_checks(
    p: DoctorProbes,
    es: Seq<EntryView>,
    rs: Seq<ProcessRecord>,
    facts: Seq<DoctorFacts>,
    now: Timestamp,
)
    ensures
        report_checks(p, worktree_checks(es, rs, facts, now)).map_values(|c: CheckedView| c.name)
            == seq![
            "git_binary"@,
            "config"@,
            "state"@,
            "state_writable"@,
            "lock"@,
            "dead_owners"@,
            "stale_leases"@,
            "active_leases"@,
            "orphans"@,
            "dirty"@,
            "in_use"@,
            "disk"@,
        ],
{
    assert(report_checks(p, worktree_checks(es, rs, facts, now)).map_values(
        |c: CheckedView| c.name,
    ) =~= seq![
        "git_binary"@,
        "config"@,
        "state"@,
        "state_writable"@,
        "lock"@,
        "dead_owners"@,
        "stale_leases"@,
        "active_leases"@,
        "orphans"@,
        "dirty"@,
        "in_use"@,
        "disk"@,
    ]);
}

/// Where every worktree is leased and none is being destroyed, each of them
/// counts once: as stale or as active.
pub proof fn law_leases_are_stale_or_active(es: Seq<EntryView>, now: Timestamp)
    requires
        forall|i: int| 0 <= i < es.len() ==> !(#[trigger] es[i]).destroying && es[i].leased,
    ensures
        stale_leases(es, now).len() + active_leases(es, now).len() == es.len(),
{
    let p = |i: int| es[i].stale(now);
    let q = |i: int| es[i].leased && !es[i].stale(now);
    lemma_split(es, p, q, es.len() as int);
    assert(es.take(es.len() as int) =~= es);
}

proof fn lemma_split(es: Seq<EntryView>, p: spec_fn(int) -> bool, q: spec_fn(int) -> bool, n: int)
    requires
        0 <= n <= es.len(),
        forall|i: int| 0 <= i < es.len() ==> !(#[trigger] es[i]).destroying && p(i) == !q(i),
    ensures
        paths_where(es.take(n), p).len() + paths_where(es.take(n), q).len() == n,
    decreases n,
{
    if n > 0 {
        lemma_split(es, p, q, n - 1);
        lemma_paths_where_step(es, p, n - 1);
        lemma_paths_where_step(es, q, n - 1);
        assert(!es[n - 1].destroying);
    }
}

/// A group of worktrees holds exactly those that have the property and are not
/// being destroyed, in order.
pub proof fn law_group_is_exact(es: Seq<EntryView>, p: spec_fn(int) -> bool)
    ensures
        paths_where(es, p) == Seq::new(es.len(), |i: int| i).filter(
            |i: int| !es[i].destroying && p(i),
        ).map_values(|i: int| es[i].path),
{
    lemma_group(es, p, es.len());
    assert(es.take(es.len() as int) =~= es);
}

proof fn lemma_group(es: Seq<EntryView>, p: spec_fn(int) -> bool, n: nat)
    requires
        n <= es.len(),
    ensures
        paths_where(es.take(n as int), p) == Seq::new(n, |i: int| i).filter(
            |i: int| !es[i].destroying && p(i),
        ).map_values(|i: int| es[i].path),
    decreases n,
{
    reveal(Seq::filter);
    let is = Seq::new(n, |i: int| i);
    if n > 0 {
        lemma_group(es, p, (n - 1) as nat);
        lemma_paths_where_step(es, p, n - 1);
        assert(is.drop_last() =~= Seq::new((n - 1) as nat, |i: int| i));
        assert(is.last() == n - 1);
    }
    assert(paths_where(es.take(n as int), p) =~= is.filter(
        |i: int| !es[i].destroying && p(i),
    ).map_values(|i: int| es[i].path));
}

/// Each group of the report is about what its name says: an owner that is dead,
/// a lease that is over or that holds, a missing repository, changes, and
/// somebody who has the worktree.
pub proof fn law_groups_are_about_their_names(
    es: Seq<EntryView>,
    rs: Seq<ProcessRecord>,
    facts: Seq<DoctorFacts>,
    now: Timestamp,
    i: int,
)
    requires
        0 <= i < es.len(),
        !es[i].destroying,
        forall|j: int| 0 <= j < es.len() && j != i ==> (#[trigger] es[j]).path != es[i].path,
    ensures
        dead_owners(es, rs).contains(es[i].path) <==> es[i].owner_pid != 0 && !owned(es[i], rs),
        stale_leases(es, now).contains(es[i].path) <==> es[i].stale(now),
        active_leases(es, now).contains(es[i].path) <==> es[i].valid(now),
        reclaimable_leases(es, facts, now).contains(es[i].path) <==> es[i].stale(now)
            && facts[i].reclaimable,
        orphans(es, facts).contains(es[i].path) <==> facts[i].orphaned,
        dirty_ones(es, facts).contains(es[i].path) <==> facts[i].dirty,
        used_ones(es, rs, facts).contains(es[i].path) <==> owned(es[i], rs) || (
        facts[i].dir matches Some(d) && crate::process::running_in(rs, d@).len() > 0),
{
    crate::state::law_lease_is_valid_or_stale(es[i], now);
    lemma_in_group(es, |j: int| es[j].owner_pid != 0 && !owned(es[j], rs), i);
    lemma_in_group(es, |j: int| es[j].stale(now), i);
    lemma_in_group(es, |j: int| es[j].leased && !es[j].stale(now), i);
    lemma_in_group(es, |j: int| es[j].stale(now) && facts[j].reclaimable, i);
    lemma_in_group(es, |j: int| facts[j].orphaned, i);
    lemma_in_group(es, |j: int| facts[j].dirty, i);
    lemma_in_group(
        es,
        |j: int| shown_processes(rs, opt_view(facts[j].dir)).len() > 0 || owned(es[j], rs),
        i,
    );
}

proof fn lemma_in_group(es: Seq<EntryView>, p: spec_fn(int) -> bool, i: int)
    requires
        0 <= i < es.len(),
        forall|j: int| 0 <= j < es.len() && j != i ==> (#[trigger] es[j]).path != es[i].path,
    ensures
        paths_where(es, p).contains(es[i].path) <==> !es[i].destroying && p(i),
{
    law_group_is_exact(es, p);
    let is = Seq::new(es.len(), |j: int| j);
    let q = |j: int| !es[j].destroying && p(j);
    let kept = is.filter(q);
    let paths = kept.map_values(|j: int| es[j].path);
    assert forall|k: int| 0 <= k < kept.len() implies q(#[trigger] kept[k]) by {
        is.lemma_filter_pred(q, k);
    }
    if q(i) {
        assert(is[i] == i);
        assert(is.contains(i));
        is.lemma_filter_contains(q, i);
        let k = choose|k: int| 0 <= k < kept.len() && kept[k] == i;
        assert(paths[k] == es[i].path);
    }
    if paths.contains(es[i].path) {
        let k = choose|k: int| 0 <= k < paths.len() && paths[k] == es[i].path;
        let j = kept[k];
        assert(q(j));
        assert(kept.contains(j));
        is.lemma_filter_contains_rev(q, j);
        let m = choose|m: int| 0 <= m < is.len() && is[m] == j;
        assert(0 <= j < es.len());
    }
}

/// Counting the checks of a severity counts each of them once.
pub proof fn law_severities_are_counted(v: Seq<CheckedView>, s: Severity)
    ensures
        with_severity(v, s) == v.filter(|c: CheckedView| c.status == s).len(),
    decreases v.len(),
{
    reveal(Seq::filter);
    if v.len() > 0 {
        law_severities_are_counted(v.drop_last(), s);
    }
}

/// A report is free of errors exactly if git is there, the state is missing or
/// parses, the directory of the pool can be written, and its lock can be had.
/// What is found of the worktrees or of the disk is never an error.
pub proof fn law_healthy_exactly(
    p: DoctorProbes,
    es: Seq<EntryView>,
    rs: Seq<ProcessRecord>,
    facts: Seq<DoctorFacts>,
    now: Timestamp,
)
    ensures
        with_severity(report_checks(p, worktree_checks(es, rs, facts, now)), Severity::Error) == 0
            <==> {
            &&& p.git_version is Some
            &&& match p.state {
                StateProbe::Missing => true,
                StateProbe::Unreadable(_) => false,
                StateProbe::Content(bytes) => state_parsed(bytes@) is Some,
            }
            &&& p.write_error is None
            &&& p.lock_error is None
        },
{
    let all = report_checks(p, worktree_checks(es, rs, facts, now));
    lemma_with_severity(all, Severity::Error);
    law_worktrees_are_warnings_at_worst(es, rs, facts, now);
    let ws = worktree_checks(es, rs, facts, now);
    assert(all[0] == git_check(opt_view(p.git_version)));
    assert(all[1] == config_check(p.max_trees));
    assert(all[2] == state_check(p.state_path@, p.state));
    assert(all[3] == writable_check(opt_view(p.write_error)));
    assert(all[4] == lock_check(opt_view(p.lock_error)));
    assert forall|i: int| 5 <= i < 11 implies (#[trigger] all[i]).status != Severity::Error by {
        assert(all[i] == ws[i - 5]);
    }
    assert(all[11] == disk_check(p.disk_low, p.disk_percent@, p.disk_free));
    assert(all.len() == 12);
}

/// A report has a warning exactly if the disk is low or some worktree has a
/// dead owner, a lease that is over, a missing repository, changes, or somebody
/// who has it. A lease that holds is none.
pub proof fn law_warnings_exactly(
    p: DoctorProbes,
    es: Seq<EntryView>,
    rs: Seq<ProcessRecord>,
    facts: Seq<DoctorFacts>,
    now: Timestamp,
)
    ensures
        with_severity(report_checks(p, worktree_checks(es, rs, facts, now)), Severity::Warn) == 0
            <==> {
            &&& !p.disk_low
            &&& dead_owners(es, rs).len() == 0
            &&& stale_leases(es, now).len() == 0
            &&& orphans(es, facts).len() == 0
            &&& dirty_ones(es, facts).len() == 0
            &&& used_ones(es, rs, facts).len() == 0
        },
{
    let all = report_checks(p, worktree_checks(es, rs, facts, now));
    lemma_with_severity(all, Severity::Warn);
    let ws = worktree_checks(es, rs, facts, now);
    assert(all.len() == 12);
    assert(all[0] == git_check(opt_view(p.git_version)));
    assert(all[1] == config_check(p.max_trees));
    assert(all[2] == state_check(p.state_path@, p.state));
    assert(all[3] == writable_check(opt_view(p.write_error)));
    assert(all[4] == lock_check(opt_view(p.lock_error)));
    assert(all[5] == ws[0] && all[6] == ws[1] && all[7] == ws[2] && all[8] == ws[3] && all[9]
        == ws[4] && all[10] == ws[5]);
    assert(all[11] == disk_check(p.disk_low, p.disk_percent@, p.disk_free));
    assert(all[5].affected == dead_owners(es, rs));
    assert(all[6].affected == stale_leases(es, now));
}

/// Each check of a group names all that it is about and counts them.
pub proof fn law_group_checks_name_their_worktrees(
    name: Seq<char>,
    severity: Severity,
    detail: Seq<char>,
    affected: Seq<Seq<char>>,
)
    ensures
        ({
            let c = group_check(name, severity, detail, affected);
            &&& c.name == name
            &&& c.affected == affected
            &&& c.count == affected.len()
            &&& affected.len() == 0 ==> c.status == Severity::Okay && c.detail == "none"@
            &&& affected.len() > 0 ==> c.status == severity && c.detail == detail
        }),
{
}

/// The size of the leases that are over is the sum of the sizes of those
/// worktrees, each counted once.
pub proof fn law_stale_sizes_add_up(
    es: Seq<EntryView>,
    facts: Seq<DoctorFacts>,
    now: Timestamp,
    n: nat,
)
    requires
        n < es.len(),
    ensures
        stale_bytes(es, facts, now, 0) == 0,
        !es[n as int].destroying && es[n as int].stale(now) ==> stale_bytes(es, facts, now, n + 1)
            == stale_bytes(es, facts, now, n) + facts[n as int].bytes,
        es[n as int].destroying || !es[n as int].stale(now) ==> stale_bytes(es, facts, now, n + 1)
            == stale_bytes(es, facts, now, n),
{
}

/// A report has a line for each of its checks, in order, between its title and
/// its counts; for machines it has an object for each.
pub proof fn law_report_tells_every_check(r: DoctorReport, i: int)
    requires
        0 <= i < r.checks@.len(),
    ensures
        report_lines(r).len() == r.checks@.len() + 2,
        report_lines(r)[i + 1] == "  "@ + r.checks@[i].status.marker_spec() + " "@ + shown_name(
            r.checks@[i].name@,
        ) + ": "@ + r.checks@[i].detail@,
        report_tree(r)->Object_0.contains(("healthy"@, Tree::Bool(r.healthy))),
        report_tree(r)->Object_0.contains(("strict_healthy"@, Tree::Bool(r.strict_healthy))),
        report_tree(r)->Object_0[2].1 matches Tree::List(cs) && cs.len() == r.checks@.len() && cs[i]
            == check_tree(r.checks@[i]@),
{
    assert(report_lines(r)[i + 1] == check_line(r.checks@[i]@));
    let ms = report_tree(r)->Object_0;
    assert(ms[0] == ("healthy"@, Tree::Bool(r.healthy)));
    assert(ms[1] == ("strict_healthy"@, Tree::Bool(r.strict_healthy)));
}

/// An object of a check says its name, its severity, its detail, its count and
/// what is affected.
pub proof fn law_check_value_says_everything(c: CheckedView)
    ensures
        ({
            let ms = check_tree(c)->Object_0;
            &&& ms.contains(("name"@, Tree::Text(c.name)))
            &&& ms.contains(
                (
                    "status"@,
                    Tree::Text(
                        match c.status {
                            Severity::Okay => "ok"@,
                            Severity::Warn => "warn"@,
                            Severity::Error => "error"@,
                        },
                    ),
                ),
            )
            &&& ms.contains(("detail"@, Tree::Text(c.detail)))
            &&& ms.contains(("count"@, Tree::Int(c.count as int)))
            &&& ms.contains(("affected"@, texts_tree(c.affected)))
        }),
{
    let ms = check_tree(c)->Object_0;
    assert(ms[0] == ("name"@, Tree::Text(c.name)));
    assert(ms[1] == ("status"@, Tree::Text(c.status.name_spec())));
    assert(ms[2] == ("detail"@, Tree::Text(c.detail)));
    assert(ms[3] == ("count"@, Tree::Int(c.count as int)));
    assert(ms[5] == ("affected"@, texts_tree(c.affected)));
}

/// The check on leases that are over names them, and says how many there are,
/// how many of them could be reclaimed, and how large they are.
pub proof fn law_stale_check_says_how_many(
    affected: Seq<Seq<char>>,
    reclaimable: nat,
    bytes: u64,
)
    requires
        affected.len() > 0,
    ensures
        ({
            let c = stale_check(affected, reclaimable, bytes);
            &&& c.status == Severity::Warn
            &&& c.affected == affected
            &&& c.count == affected.len()
            &&& c.bytes == Some(bytes)
            &&& c.detail == decimal(affected.len()) + " ("@ + decimal(reclaimable)
                + " reclaimable, "@ + size_text(bytes as nat) + ")"@
        }),
{
}

/// The checks on worktrees are about the groups that they are named for, in
/// order, with the leases that hold only counted.
pub proof fn law_worktree_checks_are_about_their_groups(
    es: Seq<EntryView>,
    rs: Seq<ProcessRecord>,
    facts: Seq<DoctorFacts>,
    now: Timestamp,
)
    requires
        stale_bytes(es, facts, now, es.len()) <= u64::MAX,
    ensures
        ({
            let cs = worktree_checks(es, rs, facts, now);
            &&& cs.len() == 6
            &&& cs[0].affected == dead_owners(es, rs)
            &&& cs[1] == stale_check(
                stale_leases(es, now),
                reclaimable_leases(es, facts, now).len(),
                stale_bytes(es, facts, now, es.len()) as u64,
            )
            &&& cs[1].affected == stale_leases(es, now)
            &&& cs[2].count == active_leases(es, now).len()
            &&& cs[2].affected.len() == 0
            &&& cs[3].affected == orphans(es, facts)
            &&& cs[4].affected == dirty_ones(es, facts)
            &&& cs[5].affected == used_ones(es, rs, facts)
            &&& cs[0].count == cs[0].affected.len() && cs[3].count == cs[3].affected.len()
                && cs[4].count == cs[4].affected.len() && cs[5].count == cs[5].affected.len()
        }),
{
}

/// People see the name of a check with blanks for its underscores, and otherwise
/// as it is.
pub proof fn law_shown_names_have_blanks(name: Seq<char>, i: int)
    requires
        0 <= i < name.len(),
    ensures
        shown_name(name).len() == name.len(),
        name[i] == '_' ==> shown_name(name)[i] == ' ',
        name[i] != '_' ==> shown_name(name)[i] == name[i],
{
}

/// The checks that are not about worktrees say what was found, and name the
/// state file where it is the trouble.
pub proof fn law_checks_say_what_was_found(
    version: Seq<char>,
    max_trees: u32,
    path: Seq<char>,
    e: String,
    low: bool,
    percent: Seq<char>,
    free: u64,
)
    ensures
        git_check(Some(version)).detail == trimmed(version),
        git_check(None).detail == "git binary not found on PATH"@,
        config_check(max_trees).detail == "max_trees = "@ + decimal(max_trees as nat),
        state_check(path, StateProbe::Unreadable(e)).affected == seq![path],
        state_check(path, StateProbe::Unreadable(e)).detail == "cannot read state file: "@ + e@,
        writable_check(Some(e@)).detail == "pool dir not writable: "@ + e@,
        lock_check(Some(e@)).detail == "state lock is wedged: "@ + e@,
        disk_check(low, percent, free).bytes == Some(free),
        disk_check(low, percent, free).detail == percent + "% free on pool volume"@,
{
}

} // verus!
