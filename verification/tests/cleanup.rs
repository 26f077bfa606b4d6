use treehouse_core::destroy::{
    after_removal, after_termination, allows, backing_repository_missing, classify_target,
    destroy_targets, drop_removed, finish_destroy, gitdir_of, plan_destroy, recheck_reserved,
    removable_path, reserve_destroys, restore_entry, sum_bytes, DestroyOptions, DestroyStep,
    DestroyTargetSpec, RepoFacts,
};
use treehouse_core::gc::{
    analyze_gc_candidate, finish_gc, gc_goes_on, plan_gc, GcFacts, GcOptions, GcQuery, GcStep,
    GC_SKIP_IN_USE, GC_SKIP_VALID_LEASE,
};
use treehouse_core::git::{GitError, GitErrorKind};
use treehouse_core::lease::mark_acquired_lease;
use treehouse_core::process::{ProcessInfo, ProcessRecord, ProcessTable};
use treehouse_core::prune::{
    finish_prune, format_bytes, plan_prune, prune_goes_on, prune_step, resolve_prune_default_ref,
    PruneFacts, PruneOptions, PruneQuery, PruneStep, PRUNE_ORPHAN_WARNING, PRUNE_SKIP_ORIGIN_UNREACHABLE,
    PRUNE_SKIP_ORPHANED, PRUNE_SKIP_UNCOMMITTED, PRUNE_SKIP_UNMERGED,
};
use treehouse_core::pool::PoolError;
use treehouse_core::reclaim::{
    after_fs_remove, after_git_remove, holds_reservation, is_free, reserve_planned, Cleanup, FsRemoval,
};
use treehouse_core::state::{
    heal_state, recover_corrupt_state, GitProbe, Slot, SlotChild, State, WorktreeEntry,
};
use treehouse_core::time::{parse_rfc3339, Timestamp};
use treehouse_core::worktree::{
    classify_for_destroy, ClassCheckResults, ClassSet, ClassifiedTarget, DestroyClass,
    DestroyOptions as ClassOptions,
};

fn dt(s: &str) -> Timestamp {
    parse_rfc3339(s).unwrap()
}

fn now() -> Timestamp {
    dt("2026-08-14T12:00:00Z")
}

fn table() -> ProcessTable {
    ProcessTable::new(vec![
        ProcessRecord {
            pid: 50,
            parent: Some(1),
            started_at: 1_725_000_000_000,
            cwd: Some("/pool/2/repo".into()),
            name: "vim".into(),
        },
        ProcessRecord {
            pid: 60,
            parent: Some(1),
            started_at: 1_725_000_050_000,
            cwd: Some("/home/u".into()),
            name: "treehouse".into(),
        },
    ])
}

fn at(name: &str) -> WorktreeEntry {
    WorktreeEntry {
        name: name.into(),
        path: format!("/pool/{name}/repo"),
        ..WorktreeEntry::default()
    }
}

fn dir(name: &str) -> Option<String> {
    Some(format!("/pool/{name}/repo"))
}

const CLEAN: RepoFacts = RepoFacts { backing_missing: false, dirty: Some(false), merged: Some(true) };

fn opts(allow_leased: bool, leased: bool, in_use: bool, unlanded: bool) -> ClassOptions {
    ClassOptions {
        allow_leased,
        include_leased: leased,
        include_in_use: in_use,
        include_unlanded: unlanded,
    }
}

fn classify(
    leased: bool,
    owner_alive: bool,
    procs: usize,
    backing_missing: Option<bool>,
    dirty: Option<bool>,
    merged: Option<bool>,
    default_ref: &str,
) -> ClassifiedTarget {
    classify_for_destroy(
        "1",
        "/pool/1/myrepo",
        leased,
        if leased { "holder" } else { "" },
        owner_alive,
        &ClassCheckResults {
            processes: vec![ProcessInfo { pid: 1, name: "x".into() }; procs],
            backing_repo_missing: backing_missing,
            dirty,
            merged,
            default_ref: default_ref.to_string(),
            proc_scan_error: false,
        },
    )
}

// ---------- classes ----------

#[test]
fn disposable_when_clean_idle_unleased_merged() {
    let t = classify(false, false, 0, Some(false), Some(false), Some(true), "refs/heads/main");
    assert!(!t.classes.has_unlanded());
    assert!(t.classes.is_empty(), "no classes => finalize adds DISPOSABLE");
    assert!(t.classes.contains(DestroyClass::Disposable) || t.classes.is_empty());
    assert!(t.is_disposable());
}

#[test]
fn leased_dirty_requires_both_flags() {
    let t = classify(true, false, 0, Some(false), Some(true), Some(false), "refs/heads/main");
    assert!(t.classes.contains(DestroyClass::Leased));
    assert!(t.classes.contains(DestroyClass::Dirty));
    let missing = opts(true, false, false, false).missing_flags(&t.classes);
    assert!(missing.contains(&"--include-leased"));
    assert!(missing.contains(&"--include-unlanded"));
    let missing2 = opts(false, true, false, true).missing_flags(&t.classes);
    assert!(missing2.contains(&"--include-leased"));
    assert!(!t.is_disposable());
}

#[test]
fn in_use_requires_include_in_use() {
    let t = classify(false, true, 1, Some(false), Some(false), Some(true), "refs/heads/main");
    assert!(t.classes.contains(DestroyClass::InUse));
    let missing = opts(false, false, false, false).missing_flags(&t.classes);
    assert!(missing.contains(&"--include-in-use"));
    let missing2 = opts(false, false, true, false).missing_flags(&t.classes);
    assert!(!missing2.contains(&"--include-in-use"));
}

#[test]
fn backing_missing_is_unverified_fail_closed() {
    let t = classify(false, false, 0, Some(true), None, None, "");
    assert!(t.classes.contains(DestroyClass::Unverified));
    assert!(!t.classes.contains(DestroyClass::Disposable));
}

#[test]
fn proc_scan_failure_fails_closed_to_in_use() {
    let t = classify_for_destroy(
        "1",
        "/pool/1/myrepo",
        false,
        "",
        false,
        &ClassCheckResults {
            processes: vec![],
            backing_repo_missing: Some(false),
            dirty: Some(false),
            merged: Some(true),
            default_ref: "refs/heads/main".into(),
            proc_scan_error: true,
        },
    );
    assert!(t.classes.contains(DestroyClass::InUse));
    assert_eq!(t.detail, "cannot check processes");
}

#[test]
fn unresolvable_default_ref_is_unverified() {
    let t = classify(false, false, 0, Some(false), Some(false), None, "");
    assert!(t.classes.contains(DestroyClass::Unverified));
    assert!(!t.classes.contains(DestroyClass::Disposable));
}

#[test]
fn unmerged_is_unlanded() {
    let t = classify(false, false, 0, Some(false), Some(false), Some(false), "refs/heads/main");
    assert!(t.classes.contains(DestroyClass::Unmerged));
    assert!(t.classes.has_unlanded());
    assert!(!t.classes.contains(DestroyClass::Disposable));
}

#[test]
fn sets_of_classes_hold_what_was_added() {
    let mut s = ClassSet::default();
    assert!(s.is_empty());
    s.add(DestroyClass::Dirty);
    s.add(DestroyClass::Leased);
    s.add(DestroyClass::Dirty);
    assert!(s.contains(DestroyClass::Dirty));
    assert!(s.contains(DestroyClass::Leased));
    assert!(!s.contains(DestroyClass::InUse));
    assert!(s.has_unlanded());
    assert_eq!(DestroyClass::Dirty.name(), "dirty");
}

// ---------- destroy ----------

#[test]
fn destroy_options_default_dry_run() {
    let opts = DestroyOptions::default();
    assert!(opts.dry_run);
    assert!(!opts.include_unlanded);
    assert!(!opts.include_in_use);
    assert!(!opts.include_leased);
}

#[test]
fn remove_dir_all_guarded_refuses_roots() {
    assert!(!removable_path(""));
    assert!(!removable_path("/"));
    assert!(!removable_path("C:\\"));
    assert!(removable_path("/tmp/some-dir"));
}

#[test]
fn backing_repository_missing_detects_dead_gitdir() {
    let gone = gitdir_of("/d/wt", "gitdir: ../../gone.git\n").unwrap();
    assert_eq!(std::path::Path::new(&gone), std::path::Path::new("/d/wt/../../gone.git"));
    assert!(backing_repository_missing(Some(&gone), false));
    assert!(!backing_repository_missing(Some("/d/real.git"), true));
    assert!(!backing_repository_missing(None, false));
    assert_eq!(gitdir_of("/d/wt", "not a pointer"), None);
    assert_eq!(gitdir_of("/d/wt", "gitdir: /abs/x.git\n"), Some("/abs/x.git".to_string()));
}

#[test]
fn targets_are_found_by_path_or_all_together() {
    let state = State { worktrees: vec![at("1"), at("2")] };
    let one = destroy_targets(&state, &DestroyTargetSpec::Single("/pool/2/repo".into())).unwrap();
    assert_eq!(one.len(), 1);
    assert_eq!(one[0].name, "2");
    assert_eq!(destroy_targets(&state, &DestroyTargetSpec::All).unwrap().len(), 2);
    assert!(matches!(
        destroy_targets(&state, &DestroyTargetSpec::Single("/nope".into())),
        Err(PoolError::NotFound(_))
    ));
}

#[test]
fn a_plan_splits_targets_by_what_the_flags_allow() {
    let mut leased = at("3");
    mark_acquired_lease(&mut leased, "agent", now());
    let t = table();
    let mut targets = vec![
        classify_target(&at("1"), &t, dir("1").as_deref(), &CLEAN, "main"),
        classify_target(&at("2"), &t, dir("2").as_deref(), &CLEAN, "main"),
        classify_target(&leased, &t, dir("3").as_deref(), &CLEAN, "main"),
    ];
    targets[0].bytes = 40;
    targets[1].bytes = 2;
    assert_eq!(sum_bytes(&targets), 42);
    let opts = DestroyOptions { include_leased: true, ..DestroyOptions::default() };
    let plan = plan_destroy(&DestroyTargetSpec::All, "/pool", &targets, &opts);
    assert!(plan.dry_run);
    assert!(plan.all);
    assert_eq!(plan.planned.len(), 1);
    assert_eq!(plan.planned[0].name, "1");
    assert_eq!(plan.planned_bytes, 40);
    assert_eq!(plan.skipped.len(), 2);
    assert_eq!(plan.skipped[0].needed_flags, ["--include-in-use"]);
    assert!(plan.skipped[1].leased_bulk);
    assert_eq!(plan.skipped[1].detail, "leased worktree is never removed by --all");
    assert!(allows(&targets[2], true, &opts).is_ok(), "named, and with the flag");
    assert!(allows(&targets[2], true, &DestroyOptions::default()).is_err());
    let done = finish_destroy(plan, vec![targets[0].clone()], vec![]);
    assert_eq!(done.freed_bytes, 40);
    assert_eq!(done.destroyed.len(), 1);
}

#[test]
fn a_reserved_worktree_is_checked_again_and_removed() {
    let t = table();
    let mut state = State { worktrees: vec![at("1"), at("4")] };
    let mut target = classify_target(&at("1"), &t, dir("1").as_deref(), &CLEAN, "main");
    target.bytes = 4096;
    let opts = DestroyOptions { dry_run: false, ..DestroyOptions::default() };
    let plan = plan_destroy(
        &DestroyTargetSpec::Single("/pool/1/repo".into()),
        "/pool",
        &vec![target.clone()],
        &opts,
    );
    let phase = reserve_destroys(
        &mut state,
        &t,
        &vec![dir("1"), dir("4")],
        &vec![CLEAN, CLEAN],
        "main",
        &vec![target],
        true,
        &opts,
        60,
    )
    .unwrap();
    assert_eq!(phase.reserved.len(), 1);
    assert!(state.worktrees[0].destroying);
    assert_eq!(state.worktrees[0].owner_pid, 60);
    assert!(!state.worktrees[1].destroying);
    let reserved = &phase.reserved[0];
    let step = recheck_reserved(
        &mut state,
        reserved,
        &t,
        dir("1").as_deref(),
        &CLEAN,
        "main",
        true,
        &opts,
    );
    let current = match step {
        DestroyStep::Remove(c) => c,
        other => panic!("got {other:?}"),
    };
    let failed = after_removal(
        &mut state.clone(),
        &reserved.reservation,
        current.clone(),
        &Err(GitError::new("worktree remove", "busy", GitErrorKind::Other)),
    );
    assert!(matches!(failed, DestroyStep::Skip(_)));
    let gone = match after_removal(&mut state, &reserved.reservation, current, &Ok(())) {
        DestroyStep::Destroyed(t) => t,
        other => panic!("got {other:?}"),
    };
    assert_eq!(finish_destroy(plan, vec![gone], vec![]).freed_bytes, 4096);
    drop_removed(&mut state, &vec!["/pool/1/repo".to_string()]);
    assert_eq!(state.worktrees.len(), 1);
    assert_eq!(state.worktrees[0].name, "4");
}

#[test]
fn a_worktree_that_was_acquired_again_is_kept() {
    let t = table();
    let mut state = State { worktrees: vec![at("1")] };
    let target = classify_target(&at("1"), &t, dir("1").as_deref(), &CLEAN, "main");
    let opts = DestroyOptions { dry_run: false, ..DestroyOptions::default() };
    let phase = reserve_destroys(
        &mut state,
        &t,
        &vec![dir("1")],
        &vec![CLEAN],
        "main",
        &vec![target],
        true,
        &opts,
        60,
    )
    .unwrap();
    mark_acquired_lease(&mut state.worktrees[0], "agent", now());
    let step = recheck_reserved(
        &mut state,
        &phase.reserved[0],
        &t,
        dir("1").as_deref(),
        &CLEAN,
        "main",
        true,
        &opts,
    );
    assert!(matches!(step, DestroyStep::Skip(_)), "got {step:?}");
    let mut gone = State::default();
    let step = recheck_reserved(
        &mut gone,
        &phase.reserved[0],
        &t,
        dir("1").as_deref(),
        &CLEAN,
        "main",
        true,
        &opts,
    );
    assert_eq!(step, DestroyStep::Gone);
}

#[test]
fn processes_are_terminated_before_a_removal() {
    let t = table();
    let mut state = State { worktrees: vec![at("2")] };
    let target = classify_target(&at("2"), &t, dir("2").as_deref(), &CLEAN, "main");
    let opts = DestroyOptions { dry_run: false, include_in_use: true, ..DestroyOptions::default() };
    let phase = reserve_destroys(
        &mut state,
        &t,
        &vec![dir("2")],
        &vec![CLEAN],
        "main",
        &vec![target],
        true,
        &opts,
        60,
    )
    .unwrap();
    let reserved = &phase.reserved[0];
    let step = recheck_reserved(
        &mut state,
        reserved,
        &t,
        dir("2").as_deref(),
        &CLEAN,
        "main",
        true,
        &opts,
    );
    let current = match step {
        DestroyStep::Terminate(c) => c,
        other => panic!("got {other:?}"),
    };
    let mut other = state.clone();
    assert!(matches!(
        after_termination(&mut other, &reserved.reservation, current.clone(), &Ok(()), true),
        DestroyStep::Skip(_)
    ));
    assert!(!other.worktrees[0].destroying, "its owner is put back");
    assert!(matches!(
        after_termination(&mut state, &reserved.reservation, current, &Ok(()), false),
        DestroyStep::Remove(_)
    ));
}

#[test]
fn crash_between_destroy_phases_self_heals() {
    let mut state = State { worktrees: vec![at("1")] };
    state.worktrees[0].destroying = true;
    state.worktrees[0].owner_pid = 999_999;
    state.worktrees[0].owner_started_at = 12345;
    heal_state(&mut state, &vec!["/pool/1/repo".to_string()], &table());
    let entry = &state.worktrees[0];
    assert!(!entry.destroying);
    assert_eq!(entry.owner_pid, 0);
}

// ---------- prune ----------

#[test]
fn prune_options_default_dry_run() {
    let opts = PruneOptions::default();
    assert!(opts.dry_run);
    assert!(!opts.prune_orphans);
}

#[test]
fn prune_defaults_to_dry_run() {
    let opts = PruneOptions::default();
    assert!(opts.dry_run);
}

#[test]
fn skip_categories_are_stable() {
    assert_eq!(PRUNE_SKIP_UNCOMMITTED, "uncommitted changes");
    assert_eq!(PRUNE_SKIP_UNMERGED, "unmerged");
    assert_eq!(PRUNE_SKIP_ORPHANED, "orphaned (backing repository missing)");
    assert_eq!(PRUNE_SKIP_ORIGIN_UNREACHABLE, "origin unreachable (cannot verify)");
    assert_eq!(PRUNE_ORPHAN_WARNING, "content could not be verified");
}

#[test]
fn format_bytes_golden() {
    assert_eq!(format_bytes(0), "0 B");
    assert_eq!(format_bytes(1023), "1023 B");
    assert_eq!(format_bytes(1024), "1 KiB");
    assert_eq!(format_bytes(1536), "1.5 KiB");
    assert_eq!(format_bytes(1024 * 1024), "1 MiB");
    assert_eq!(format_bytes(1024 * 1024 * 1024), "1 GiB");
    assert_eq!(format_bytes((1.1 * 1024.0) as u64), "1.1 KiB");
}

/// The same size by floating point.
fn by_float(bytes: u64) -> String {
    if bytes < 1024 {
        return format!("{bytes} B");
    }
    let mut value = bytes as f64 / 1024.0;
    let units = ["KiB", "MiB", "GiB", "TiB"];
    let mut unit = 0;
    while value >= 1024.0 && unit < units.len() - 1 {
        value /= 1024.0;
        unit += 1;
    }
    let text = format!("{value:.1}");
    let text = text.trim_end_matches('0').trim_end_matches('.').to_string();
    format!("{} {}", text, units[unit])
}

#[test]
fn sizes_agree_with_floating_point() {
    let mut n: u64 = 1;
    while n < u64::MAX / 3 {
        for d in [0u64, 1, 51, 52, 53, 77, 512] {
            let x = n.wrapping_add(d);
            assert_eq!(format_bytes(x), by_float(x), "{x}");
        }
        n = n * 2 + 1;
    }
    for x in [
        u64::MAX,
        u64::MAX - 1024,
        1023 * 1024 + 1023,
        1024 * 1024 - 1,
        1126,
        1178,
        1_234_567_890_123,
        9_007_199_254_740_993,
        1 << 63,
    ] {
        assert_eq!(format_bytes(x), by_float(x), "{x}");
    }
}

#[test]
fn prune_asks_for_what_it_needs_to_know() {
    let t = table();
    let wt = at("1");
    let d = dir("1");
    let step = |f: &PruneFacts| prune_step(&wt, &t, d.as_deref(), false, Some("main"), f);
    let mut f = PruneFacts::default();
    assert_eq!(step(&f), PruneStep::Ask(PruneQuery::BackingMissing));
    f.backing_missing = Some(false);
    assert_eq!(step(&f), PruneStep::Ask(PruneQuery::Dirty));
    f.dirty = Some(Ok(false));
    assert_eq!(step(&f), PruneStep::Ask(PruneQuery::Merged));
    f.merged = Some(Ok(true));
    assert_eq!(step(&f), PruneStep::Ask(PruneQuery::Size));
    f.size = Some(Ok(77));
    match step(&f) {
        PruneStep::Candidate(c) => {
            assert_eq!(c.bytes, 77);
            assert!(!c.orphaned);
            assert_eq!(c.warning, "");
        }
        other => panic!("got {other:?}"),
    }
}

fn skip_category(s: PruneStep) -> (String, String) {
    match s {
        PruneStep::Skip(k) => (k.category, k.reason),
        other => panic!("got {other:?}"),
    }
}

#[test]
fn prune_skips_what_it_cannot_prove_safe() {
    let t = table();
    let wt = at("1");
    let d = dir("1");
    let mut f = PruneFacts { backing_missing: Some(true), ..PruneFacts::default() };
    let step = |f: &PruneFacts, r: Option<&str>| prune_step(&wt, &t, d.as_deref(), false, r, f);
    assert_eq!(skip_category(step(&f, Some("main"))).0, PRUNE_SKIP_ORPHANED);
    f.backing_missing = Some(false);
    f.dirty = Some(Ok(true));
    assert_eq!(skip_category(step(&f, Some("main"))).0, PRUNE_SKIP_UNCOMMITTED);
    f.dirty = Some(Err("boom".into()));
    assert_eq!(
        step(&f, Some("main")),
        PruneStep::Ask(PruneQuery::BackingMissingAfterFailure)
    );
    f.backing_missing_after_failure = Some(false);
    assert_eq!(skip_category(step(&f, Some("main"))).1, "cannot check status");
    f.backing_missing_after_failure = Some(true);
    assert_eq!(skip_category(step(&f, Some("main"))).0, PRUNE_SKIP_ORPHANED);
    f.dirty = Some(Ok(false));
    assert_eq!(skip_category(step(&f, None)).0, PRUNE_SKIP_ORIGIN_UNREACHABLE);
    f.merged = Some(Ok(false));
    assert_eq!(skip_category(step(&f, Some("main"))).1, "HEAD not merged into main");
    f.merged = Some(Err("x".into()));
    assert_eq!(skip_category(step(&f, Some("main"))).0, "cannot verify worktree");
    f.merged = Some(Ok(true));
    f.size = Some(Err("x".into()));
    assert_eq!(skip_category(step(&f, Some("main"))).0, "cannot measure size");
}

#[test]
fn prune_ignores_what_somebody_has() {
    let t = table();
    let f = PruneFacts::default();
    assert_eq!(
        prune_step(&at("2"), &t, dir("2").as_deref(), true, Some("main"), &f),
        PruneStep::Ignore
    );
    let mut leased = at("1");
    mark_acquired_lease(&mut leased, "h", now());
    assert_eq!(
        prune_step(&leased, &t, dir("1").as_deref(), true, Some("main"), &f),
        PruneStep::Ignore
    );
}

#[test]
fn orphans_are_pruned_on_request() {
    let f = PruneFacts {
        backing_missing: Some(true),
        size: Some(Ok(9)),
        ..PruneFacts::default()
    };
    let step = prune_step(&at("1"), &table(), dir("1").as_deref(), true, None, &f);
    let plan = plan_prune(true, &vec![step]);
    assert_eq!(plan.candidates.len(), 1);
    assert!(plan.candidates[0].orphaned);
    assert_eq!(plan.candidates[0].warning, PRUNE_ORPHAN_WARNING);
    assert_eq!(plan.reclaimable_bytes, 9);
    assert!(!prune_goes_on(&plan), "a dry run ends with the plan");
    let mut plan = plan;
    plan.dry_run = false;
    assert!(prune_goes_on(&plan));
    let pruned = plan.candidates.clone();
    let done = finish_prune(plan, pruned, vec![]);
    assert_eq!(done.freed_bytes, 9);
}

#[test]
fn the_default_ref_is_resolved_or_refused() {
    let e = GitError::new("fetch", "offline", GitErrorKind::OriginUnreachable);
    assert_eq!(
        resolve_prune_default_ref(&Ok(()), &Ok("refs/heads/main".into()), true).unwrap(),
        "refs/heads/main"
    );
    assert_eq!(
        resolve_prune_default_ref(&Err(e.clone()), &Ok("x".into()), true).unwrap_err(),
        "origin unreachable (cannot verify): git fetch: offline"
    );
    assert_eq!(
        resolve_prune_default_ref(&Ok(()), &Err(e.clone()), true).unwrap_err(),
        "origin unreachable (cannot verify): git fetch: offline"
    );
    assert_eq!(
        resolve_prune_default_ref(&Ok(()), &Err(e), false).unwrap_err(),
        "cannot verify worktree: git fetch: offline"
    );
}

// ---------- gc ----------

#[test]
fn gc_options_default_dry_run() {
    assert!(GcOptions::default().dry_run);
    assert!(!GcOptions::default().prune_orphans);
}

#[test]
fn skip_categories_stable() {
    assert_eq!(GC_SKIP_VALID_LEASE, "valid lease");
    assert_eq!(GC_SKIP_IN_USE, "in use");
}

#[test]
fn stale_lease_boundaries() {
    let mut wt = WorktreeEntry {
        leased: true,
        expires_at: dt("2026-08-14T12:30:00Z"),
        ..Default::default()
    };
    assert!(wt.is_valid_lease(now()));
    assert!(!wt.is_stale_lease(now()));
    assert!(wt.is_stale_lease(dt("2026-08-14T12:30:00Z")));
    wt.expires_at = Timestamp::zero();
    assert!(wt.is_valid_lease(now()));
    assert!(!wt.is_stale_lease(now()));
}

fn stale(name: &str) -> WorktreeEntry {
    let mut wt = at(name);
    mark_acquired_lease(&mut wt, "agent", dt("2026-08-14T10:00:00Z"));
    wt.expires_at = dt("2026-08-14T11:00:00Z");
    wt
}

const GONE_THROUGH: GcFacts = GcFacts {
    backing_missing: Some(false),
    dirty: Some(Some(false)),
    merged: Some(Some(true)),
    size: Some(Some(12)),
};

fn gc(wt: &WorktreeEntry, name: &str, orphans: bool, default_ref: Option<&str>, f: &GcFacts) -> GcStep {
    let o = GcOptions { dry_run: true, prune_orphans: orphans };
    analyze_gc_candidate(wt, &table(), dir(name).as_deref(), &o, default_ref, now(), f)
}

#[test]
fn stale_leases_are_reclaimed_and_valid_ones_are_not() {
    match gc(&stale("1"), "1", false, Some("main"), &GONE_THROUGH) {
        GcStep::Candidate(c) => {
            assert_eq!(c.tag, "stale lease");
            assert_eq!(c.bytes, 12);
        }
        other => panic!("got {other:?}"),
    }
    let mut valid = stale("1");
    valid.expires_at = dt("2026-08-14T12:00:01Z");
    match gc(&valid, "1", false, Some("main"), &GONE_THROUGH) {
        GcStep::Skip(s) => assert_eq!(s.category, GC_SKIP_VALID_LEASE),
        other => panic!("got {other:?}"),
    }
    match gc(&at("1"), "1", false, Some("main"), &GONE_THROUGH) {
        GcStep::Candidate(c) => assert_eq!(c.tag, "stale"),
        other => panic!("got {other:?}"),
    }
}

#[test]
fn a_live_process_keeps_a_stale_lease() {
    match gc(&stale("2"), "2", true, Some("main"), &GONE_THROUGH) {
        GcStep::Skip(s) => assert_eq!(s.category, GC_SKIP_IN_USE),
        other => panic!("got {other:?}"),
    }
}

#[test]
fn gc_asks_in_order_and_fails_closed() {
    let wt = stale("1");
    let mut f = GcFacts::default();
    assert_eq!(gc(&wt, "1", false, Some("main"), &f), GcStep::Ask(GcQuery::BackingMissing));
    f.backing_missing = Some(false);
    assert_eq!(gc(&wt, "1", false, Some("main"), &f), GcStep::Ask(GcQuery::Dirty));
    f.dirty = Some(None);
    match gc(&wt, "1", false, Some("main"), &f) {
        GcStep::Skip(s) => assert_eq!(s.category, PRUNE_SKIP_UNCOMMITTED),
        other => panic!("got {other:?}"),
    }
    f.dirty = Some(Some(false));
    match gc(&wt, "1", false, None, &f) {
        GcStep::Skip(s) => assert_eq!(s.category, "not disposable"),
        other => panic!("got {other:?}"),
    }
    assert_eq!(gc(&wt, "1", false, Some("main"), &f), GcStep::Ask(GcQuery::Merged));
    f.merged = Some(None);
    assert!(matches!(gc(&wt, "1", false, Some("main"), &f), GcStep::Skip(_)));
    f.merged = Some(Some(true));
    assert_eq!(gc(&wt, "1", false, Some("main"), &f), GcStep::Ask(GcQuery::Size));
    let orphan = GcFacts { backing_missing: Some(true), size: Some(None), ..GcFacts::default() };
    assert!(matches!(gc(&wt, "1", false, Some("main"), &orphan), GcStep::Skip(_)));
    match gc(&wt, "1", true, Some("main"), &orphan) {
        GcStep::Candidate(c) => {
            assert_eq!(c.tag, "stale/orphaned");
            assert_eq!(c.bytes, 0);
        }
        other => panic!("got {other:?}"),
    }
}

#[test]
fn a_gc_plan_is_carried_out() {
    let step = gc(&stale("1"), "1", false, Some("main"), &GONE_THROUGH);
    let plan = plan_gc(false, &vec![step, GcStep::Ignore]);
    assert_eq!(plan.reclaimable_bytes, 12);
    assert!(gc_goes_on(&plan));
    let reclaimed = plan.candidates.clone();
    let done = finish_gc(plan, reclaimed, vec![]);
    assert_eq!(done.freed_bytes, 12);
    assert!(!gc_goes_on(&plan_gc(true, &vec![])));
}

// ---------- reserving and removing ----------

#[test]
fn only_free_worktrees_are_reserved() {
    let t = table();
    let mut state = State { worktrees: vec![stale("1"), at("3"), stale("4")] };
    state.worktrees[2].expires_at = Timestamp::zero();
    assert!(is_free(&state.worktrees[0], &t, now(), false));
    assert!(!is_free(&state.worktrees[2], &t, now(), false));
    let planned = vec![
        "/pool/1/repo".to_string(),
        "/pool/4/repo".to_string(),
        "/pool/9/repo".to_string(),
    ];
    let before = state.clone();
    let reserved = reserve_planned(&mut state, &planned, &t, now(), false, 60, "gc").unwrap();
    assert_eq!(reserved.len(), 1);
    assert_eq!(reserved[0].index, 0);
    assert!(state.worktrees[0].destroying);
    assert!(state.worktrees[0].leased, "the lease stays");
    assert_eq!(state.worktrees[1], before.worktrees[1]);
    assert_eq!(state.worktrees[2], before.worktrees[2]);
    assert!(holds_reservation(&state, &reserved[0].reservation));
    restore_entry(&mut state, &reserved[0].reservation);
    assert_eq!(state, before);
    assert!(!holds_reservation(&state, &reserved[0].reservation));
}

#[test]
fn reserving_without_a_known_process_fails() {
    let mut state = State { worktrees: vec![at("1")] };
    let r = reserve_planned(
        &mut state,
        &vec!["/pool/1/repo".to_string()],
        &table(),
        now(),
        false,
        7,
        "gc",
    );
    assert!(r.is_err());
}

#[test]
fn gc_retains_state_on_removal_failure() {
    let t = table();
    let mut state = State { worktrees: vec![stale("1")] };
    let before = state.clone();
    let planned = vec!["/pool/1/repo".to_string()];
    let reserved = reserve_planned(&mut state, &planned, &t, now(), false, 60, "gc").unwrap();
    let token = &reserved[0].reservation;
    let error = GitError::new("worktree remove", "locked", GitErrorKind::Other);
    match after_git_remove(&mut state, token, "1", &Err(error.clone()), false) {
        Cleanup::Failed(e) => {
            assert_eq!(e.phase, "git_worktree_remove");
            assert_eq!(e.path, "/pool/1/repo");
            assert_eq!(e.detail, "git worktree remove: locked");
        }
        other => panic!("got {other:?}"),
    }
    assert_eq!(state, before, "the entry stays as it was");
    assert_eq!(
        after_git_remove(&mut state, token, "1", &Err(error), true),
        Cleanup::DeleteDirectory
    );
}

#[test]
fn gc_retry_succeeds_after_fixing_error() {
    let t = table();
    let mut state = State { worktrees: vec![stale("1")] };
    let planned = vec!["/pool/1/repo".to_string()];
    let first = reserve_planned(&mut state, &planned, &t, now(), false, 60, "gc").unwrap();
    let error = FsRemoval::Failed("denied".into());
    match after_fs_remove(&mut state, &first[0].reservation, "1", &error) {
        Cleanup::Failed(e) => assert_eq!(e.phase, "filesystem_remove"),
        other => panic!("got {other:?}"),
    }
    let second = reserve_planned(&mut state, &planned, &t, now(), false, 60, "gc").unwrap();
    assert_eq!(second.len(), 1);
    let token = &second[0].reservation;
    assert_eq!(after_git_remove(&mut state, token, "1", &Ok(()), false), Cleanup::DeleteDirectory);
    assert_eq!(after_fs_remove(&mut state, token, "1", &FsRemoval::Removed), Cleanup::Done);
    drop_removed(&mut state, &planned);
    assert!(state.worktrees.is_empty());
}

#[test]
fn gc_not_found_directory_is_handled_gracefully() {
    let t = table();
    let mut state = State { worktrees: vec![stale("1")] };
    let planned = vec!["/pool/1/repo".to_string()];
    let reserved = reserve_planned(&mut state, &planned, &t, now(), false, 60, "gc").unwrap();
    assert_eq!(
        after_fs_remove(&mut state, &reserved[0].reservation, "1", &FsRemoval::NotFound),
        Cleanup::Done
    );
}

#[test]
fn a_recovered_worktree_is_never_reclaimed() {
    let slots = Ok(vec![Ok(Slot {
        name: "1".into(),
        is_dir: Ok(true),
        children: Ok(vec![Ok(SlotChild {
            name: "repo".into(),
            is_dir: Ok(true),
            git: GitProbe::Present,
        })]),
    })]);
    let state =
        recover_corrupt_state("/pool", "/pool/treehouse-state.json", &slots, dt("2020-01-01T00:00:00Z"))
            .unwrap();
    match gc(&state.worktrees[0], "1", true, Some("main"), &GONE_THROUGH) {
        GcStep::Skip(s) => assert_eq!(s.category, GC_SKIP_VALID_LEASE),
        other => panic!("got {other:?}"),
    }
}
