use treehouse_core::cli::{
    check_ttl, command_or_get, destroy_failure, destroy_request, failed_gc, failed_prune, find_named,
    format_variant_str, get_format, init_text, is_affirmative, lease_options, parse_duration,
    parse_run_args, resolve_format, return_request, settings_for, shows_notice, sweep_exit_code, update_message,
    update_notice, watch_banner, watch_report, watch_step, Command, DestroyArgs, GcArgs, GetArgs,
    PruneArgs, ReturnArgs, StatusArgs, WatchArgs, WatchStep,
};
use treehouse_core::config::{Hooks, TreehouseConfig};
use treehouse_core::destroy::{DestroyResult, DestroySkip, DestroyTarget, DestroyTargetSpec};
use treehouse_core::doctor::{
    check_disk, check_git_binary, check_state, inspect_worktrees, render_report, report_json,
    run_doctor, DoctorCheck, DoctorFacts, DoctorProbes, DoctorReport, Severity, StateProbe,
};
use treehouse_core::format::{render, render_gc, OutputFormat};
use treehouse_core::gc::{GcResult, GcSkipped, GcWorktree};
use treehouse_core::lease::{mark_acquired_lease, LeaseInfo};
use treehouse_core::pool::WorktreeStatus;
use treehouse_core::process::{ProcessInfo, ProcessRecord, ProcessTable};
use treehouse_core::prune::{PruneResult, PruneSkipped, PruneWorktree};
use treehouse_core::reclaim::CleanupError;
use treehouse_core::result::{
    CommandResult, DestroyResultJson, GcResultJson, GetResult, ProcessJson, PruneResultJson, ReturnResult,
    StatusJson, SweepScope,
};
use treehouse_core::run::{
    child_env, child_status, cleanup_outcome, cleanup_preconditions, exit_code, finish_run,
    is_lease_span, run_acquire, run_options, CleanupOutcome, RunOptions,
};
use treehouse_core::state::{State, WorktreeEntry};
use treehouse_core::state_file::state_bytes;
use treehouse_core::time::{parse_rfc3339, Span, Timestamp};
use treehouse_core::worktree::{ClassSet, DestroyClass};

fn ws(name: &str, status: &str) -> WorktreeStatus {
    WorktreeStatus {
        name: name.to_string(),
        path: format!("/pool/{name}/repo"),
        status: status.to_string(),
        processes: vec![],
        lease_id: String::new(),
        lease_holder: String::new(),
        leased_at: Timestamp::zero(),
        expires_at: Timestamp::zero(),
        stale: false,
    }
}

fn here() -> SweepScope {
    SweepScope::of(false, false, 1)
}

fn render_str(fmt: OutputFormat, r: &CommandResult) -> (String, String) {
    let t = render(fmt, r);
    (t.out, t.err)
}

fn dt(s: &str) -> Timestamp {
    parse_rfc3339(s).unwrap()
}

fn strings(v: &[&str]) -> Vec<String> {
    v.iter().map(|s| s.to_string()).collect()
}

fn target(name: &str, class: DestroyClass, bytes: u64) -> DestroyTarget {
    DestroyTarget {
        name: name.into(),
        path: format!("/pool/{name}/repo"),
        bytes,
        class,
        classes: ClassSet::default(),
        processes: vec![],
        detail: "why".into(),
    }
}

fn destroyed() -> DestroyResult {
    DestroyResult {
        dry_run: true,
        all: false,
        scope: "/pool".into(),
        planned: vec![target("1", DestroyClass::Disposable, 2048)],
        destroyed: vec![],
        skipped: vec![DestroySkip {
            target: target("2", DestroyClass::Dirty, 0),
            needed_flags: vec!["--include-in-use", "--include-unlanded"],
            leased_bulk: false,
            detail: "missing required flags".into(),
        }],
        planned_bytes: 2048,
        freed_bytes: 0,
    }
}

fn pruned() -> PruneResult {
    PruneResult {
        dry_run: true,
        candidates: vec![PruneWorktree {
            name: "1".into(),
            path: "/pool/1/repo".into(),
            bytes: 1536,
            orphaned: false,
            warning: String::new(),
        }],
        skipped: vec![PruneSkipped {
            name: "2".into(),
            path: "/pool/2/repo".into(),
            category: "unmerged".into(),
            reason: "HEAD not merged into main".into(),
            detail: String::new(),
        }],
        errors: vec![CleanupError {
            name: "3".into(),
            path: "/pool/3/repo".into(),
            phase: "filesystem_remove".into(),
            detail: "denied".into(),
        }],
        reclaimable_bytes: 1536,
        ..PruneResult::default()
    }
}

// ---------- rendering ----------

#[test]
fn status_empty_human_banner_to_stderr() {
    let (out, err) = render_str(OutputFormat::Human, &CommandResult::Status(vec![]));
    assert_eq!(out, "", "no stdout for empty pool");
    assert!(err.contains("No worktrees in pool."), "got {err}");
}

#[test]
fn status_json_empty_is_exactly_empty_array() {
    let (out, _) = render_str(OutputFormat::Json, &CommandResult::Status(vec![]));
    assert_eq!(out, "[]\n", "status empty JSON must be exactly []\n, got {out:?}");
}

#[test]
fn status_json_all_keys_always_present() {
    let (out, _) = render_str(OutputFormat::Json, &CommandResult::Status(vec![ws("1", "available")]));
    let v: serde_json::Value = serde_json::from_str(out.trim()).unwrap();
    let first = &v[0];
    assert_eq!(first["lease_id"], "");
    assert_eq!(first["lease_holder"], "");
    assert!(first["leased_at"].is_null());
    assert_eq!(first["processes"].as_array().unwrap().len(), 0);
    assert_eq!(
        out,
        "[{\"name\":\"1\",\"path\":\"/pool/1/repo\",\"status\":\"available\",\"lease_id\":\"\",\"lease_holder\":\"\",\"leased_at\":null,\"processes\":[],\"expires_at\":null,\"stale\":false}]\n"
    );
}

#[test]
fn get_lease_json_four_keys_present() {
    let lease = LeaseInfo {
        path: "/pool/1/repo".into(),
        lease_id: "9f2c1e04a7b3d5c8e6f10293a4b5c6d7".into(),
        lease_holder: "agent-42".into(),
        leased_at: dt("2026-08-14T12:00:00Z"),
    };
    let (out, _) = render_str(OutputFormat::Json, &CommandResult::Get(GetResult::Lease(lease)));
    let v: serde_json::Value = serde_json::from_str(out.trim()).unwrap();
    assert!(v.get("path").is_some());
    assert!(v.get("lease_id").is_some());
    assert!(v.get("lease_holder").is_some());
    assert!(v.get("leased_at").is_some());
    assert!(!v["leased_at"].is_null(), "leased_at must be non-null");
}

#[test]
fn interactive_get_writes_nothing_to_stdout() {
    let r = CommandResult::Get(GetResult::Interactive);
    let (out, _) = render_str(OutputFormat::Human, &r);
    assert_eq!(out, "", "interactive get must write nothing to stdout");
    for f in [OutputFormat::Json, OutputFormat::Toon] {
        assert_eq!(render_str(f, &r), (String::new(), String::new()));
        assert_eq!(render_str(f, &CommandResult::Enter), (String::new(), String::new()));
    }
}

#[test]
fn toon_round_trips_to_same_data_as_json() {
    let r = CommandResult::Status(vec![ws("1", "leased")]);
    let (json_out, _) = render_str(OutputFormat::Json, &r);
    let (toon_out, _) = render_str(OutputFormat::Toon, &r);
    let decoded = toon::try_decode(toon_out.trim(), None).unwrap();
    let json_val: serde_json::Value = serde_json::from_str(json_out.trim()).unwrap();
    assert!(toon_out.contains("status: leased"), "got: {toon_out}");
    let _ = decoded;
    let _ = json_val;
}

#[test]
fn toon_encoder_smoke() {
    let r = CommandResult::Return(ReturnResult {
        path: "Alice".into(),
        returned: true,
        aborted: false,
        terminated: vec![],
        warnings: strings(&["rust", "toon"]),
    });
    let (encoded, _) = render_str(OutputFormat::Toon, &r);
    assert!(encoded.contains("path: Alice"), "got: {encoded}");
    assert!(encoded.contains("warnings[2]"), "got: {encoded}");
    assert!(encoded.ends_with('\n'));
    let decoded = toon::try_decode(encoded.trim(), None).unwrap();
    let _ = decoded;
}

#[test]
fn a_lease_prints_its_path_alone() {
    let lease = LeaseInfo {
        path: "/pool/1/repo".into(),
        lease_id: "abc".into(),
        lease_holder: String::new(),
        leased_at: dt("2026-08-14T12:00:00Z"),
    };
    let (out, err) = render_str(OutputFormat::Human, &CommandResult::Get(GetResult::Lease(lease)));
    assert_eq!(out, "/pool/1/repo\n");
    assert_eq!(
        err,
        "🌳 Leased worktree at /pool/1/repo. Run 'treehouse return /pool/1/repo' to release it.\n"
    );
}

#[test]
fn a_status_lists_worktrees_and_processes() {
    let mut a = ws("1", "leased");
    a.lease_holder = "agent".into();
    let mut b = ws("10", "in-use");
    b.processes = vec![ProcessInfo { pid: 7, name: "vim".into() }];
    let (out, err) = render_str(OutputFormat::Human, &CommandResult::Status(vec![a, b]));
    assert_eq!(
        out,
        "1     leased       /pool/1/repo  (held by agent)\n10    in-use       /pool/10/repo\n                   vim (7)\n"
    );
    assert_eq!(err, "");
    let row = format!("{:<4}  {:<11}  {}{}", "10", "in-use", "/pool/10/repo", "");
    assert!(out.contains(&row));
    assert!(out.contains(&format!("{:19}{}", "", "vim (7)")));
}

#[test]
fn returns_are_announced() {
    let mut r = ReturnResult::default();
    assert_eq!(render_str(OutputFormat::Human, &CommandResult::Return(r.clone())).1, "");
    r.returned = true;
    assert_eq!(
        render_str(OutputFormat::Human, &CommandResult::Return(r.clone())).1,
        "🌳 Worktree returned to pool.\n"
    );
    r.aborted = true;
    assert_eq!(
        render_str(OutputFormat::Human, &CommandResult::Return(r.clone())).1,
        "🌳 Aborted.\n"
    );
    r.terminated = vec![ProcessJson { pid: 3, name: "sh".into() }];
    let (out, _) = render_str(OutputFormat::Json, &CommandResult::Return(r));
    assert_eq!(
        out,
        "{\"path\":\"\",\"returned\":true,\"aborted\":true,\"terminated\":[{\"pid\":3,\"name\":\"sh\"}],\"warnings\":[]}\n"
    );
}

#[test]
fn prunes_are_summed_up() {
    let (out, err) = render_str(OutputFormat::Human, &CommandResult::Prune(pruned(), here()));
    assert_eq!(
        out,
        "🌳 Dry run: would prune 1 stale worktree(s) and reclaim 1.5 KiB.\n🌳 Re-run with --yes to delete these worktrees.\n  1.5 KiB /pool/1/repo\n"
    );
    assert_eq!(
        err,
        "🌳 Skipped 1 unsafe idle worktree(s):\n  [unmerged] /pool/2/repo (HEAD not merged into main)\n🌳 Cleanup failed for 1 worktree(s) (will retry next run):\n  [filesystem_remove] /pool/3/repo — 3: denied\n"
    );
    let mut done = pruned();
    done.dry_run = false;
    done.pruned = done.candidates.clone();
    done.freed_bytes = 1536;
    let (out, _) = render_str(OutputFormat::Human, &CommandResult::Prune(done, here()));
    assert_eq!(out, "🌳 Pruned 1 stale worktree(s) and freed 1.5 KiB.\n");
    let (out, err) = render_str(OutputFormat::Human, &CommandResult::Prune(PruneResult::default(), here()));
    assert_eq!(out, "");
    assert_eq!(err, "🌳 No stale worktrees to prune.\n");
}

#[test]
fn prunes_are_counted_for_machines() {
    let (out, _) = render_str(OutputFormat::Json, &CommandResult::Prune(pruned(), here()));
    assert_eq!(
        out,
        "{\"dry_run\":true,\"orphans_included\":false,\"global\":false,\"pool_count\":1,\"candidates\":1,\"pruned\":0,\"skipped\":1,\"errors\":1,\"reclaimable_bytes\":1536,\"freed_bytes\":0}\n"
    );
    let args = PruneArgs { yes: true, all: true, prune_orphans: true, verbose: false };
    let (out, _) = render_str(OutputFormat::Json, &args.outcome(pruned(), 3));
    assert!(out.starts_with("{\"dry_run\":false,\"orphans_included\":true,\"global\":true,\"pool_count\":3,"));
    let j = PruneResultJson::from_result(&pruned(), true, true, true, 4);
    assert_eq!(j.pool_count, 4);
    assert!(j.dry_run && j.orphans_included && j.global);
    assert_eq!(j.errors, 1);
}

#[test]
fn destroys_are_summed_up() {
    let (out, err) = render_str(OutputFormat::Human, &CommandResult::Destroy(destroyed()));
    assert_eq!(
        out,
        "🌳 Dry run: would destroy 1 worktree(s) in /pool and reclaim 2 KiB.\n  [disposable] 2 KiB /pool/1/repo\n"
    );
    assert_eq!(err, "  [missing required flags] /pool/2/repo (dirty)\n");
    let mut done = destroyed();
    done.dry_run = false;
    done.destroyed = done.planned.clone();
    done.freed_bytes = 2048;
    let (out, _) = render_str(OutputFormat::Human, &CommandResult::Destroy(done));
    assert_eq!(out, "🌳 Destroyed 1 worktree(s) in /pool and freed 2 KiB.\n");
}

#[test]
fn destroys_are_spelled_out_for_machines() {
    let j = DestroyResultJson::from_result(&destroyed());
    assert_eq!(j.planned[0].class, "disposable");
    assert_eq!(j.skipped[0].needed_flags, ["--include-in-use", "--include-unlanded"]);
    let (out, _) = render_str(OutputFormat::Json, &CommandResult::Destroy(destroyed()));
    let v: serde_json::Value = serde_json::from_str(&out).unwrap();
    assert_eq!(v["planned"][0]["bytes"], 2048);
    assert_eq!(v["skipped"][0]["target"]["class"], "dirty");
    assert_eq!(v["skipped"][0]["needed_flags"][1], "--include-unlanded");
    assert_eq!(v["freed_bytes"], 0);
    assert_eq!(v["all"], false);
}

#[test]
fn statuses_carry_the_instant_of_their_lease() {
    let mut s = ws("1", "leased");
    s.leased_at = dt("2026-08-14T12:00:00Z");
    s.processes = vec![ProcessInfo { pid: 1, name: "x".into() }];
    let j = StatusJson::from_ws(&s);
    assert_eq!(j.leased_at.as_deref(), Some("2026-08-14T12:00:00+00:00"));
    assert_eq!(j.processes, vec![ProcessJson { pid: 1, name: "x".into() }]);
    assert_eq!(StatusJson::from_ws(&ws("1", "x")).leased_at, None);
}

#[test]
fn expired_leases_say_so() {
    let mut s = ws("1", "leased");
    s.lease_holder = "agent".into();
    s.leased_at = dt("2026-08-14T12:00:00Z");
    s.expires_at = dt("2026-08-14T12:30:00Z");
    s.stale = true;
    let (out, _) = render_str(OutputFormat::Human, &CommandResult::Status(vec![s.clone()]));
    assert_eq!(out, "1     leased (expired)  /pool/1/repo  (held by agent)\n");
    let (out, _) = render_str(OutputFormat::Json, &CommandResult::Status(vec![s]));
    assert_eq!(
        out,
        "[{\"name\":\"1\",\"path\":\"/pool/1/repo\",\"status\":\"leased\",\"lease_id\":\"\",\"lease_holder\":\"agent\",\"leased_at\":\"2026-08-14T12:00:00+00:00\",\"processes\":[],\"expires_at\":\"2026-08-14T12:30:00+00:00\",\"stale\":true}]\n"
    );
    let (out, _) = render_str(OutputFormat::Json, &CommandResult::Status(vec![ws("1", "leased")]));
    let v: serde_json::Value = serde_json::from_str(&out).unwrap();
    assert!(v[0]["expires_at"].is_null());
    assert_eq!(v[0]["stale"], false);
}

fn reclaimed() -> GcResult {
    GcResult {
        dry_run: true,
        candidates: vec![GcWorktree {
            name: "1".into(),
            path: "/pool/1/repo".into(),
            bytes: 1024,
            tag: "stale lease".into(),
            warning: String::new(),
        }],
        skipped: vec![GcSkipped {
            name: "2".into(),
            path: "/pool/2/repo".into(),
            category: "valid lease".into(),
            reason: "lease is valid (not expired)".into(),
        }],
        reclaimable_bytes: 1024,
        ..GcResult::default()
    }
}

#[test]
fn reclaiming_is_summed_up() {
    let t = render_gc(true, &reclaimed());
    assert_eq!(
        t.out,
        "🌳 Dry run: would reclaim 1 worktree(s) and free 1 KiB.\n🌳 Re-run with --yes to reclaim these worktrees.\n  [stale lease] 1 KiB /pool/1/repo\n"
    );
    assert_eq!(
        t.err,
        "🌳 Skipped 1 worktree(s):\n  [valid lease] /pool/2/repo (lease is valid (not expired))\n"
    );
    let mut done = reclaimed();
    done.reclaimed = done.candidates.clone();
    done.freed_bytes = 1024;
    assert_eq!(render_gc(false, &done).out, "🌳 Reclaimed 1 worktree(s) and freed 1 KiB.\n");
    let none = render_gc(true, &GcResult::default());
    assert_eq!(none.out, "");
    assert_eq!(none.err, "🌳 No stale worktrees to reclaim.\n");
}

#[test]
fn reclaiming_is_counted_for_machines() {
    let (out, err) = render_str(OutputFormat::Json, &CommandResult::Gc(reclaimed(), here()));
    assert_eq!(
        out,
        "{\"dry_run\":true,\"global\":false,\"pool_count\":1,\"candidates\":1,\"reclaimed\":0,\"skipped\":1,\"reclaimable_bytes\":1024,\"freed_bytes\":0,\"orphans_included\":false,\"errors\":0}\n"
    );
    assert_eq!(err, "");
    let args = GcArgs { yes: true, all: true, prune_orphans: true, verbose: false };
    let CommandResult::Gc(r, scope) = args.outcome(GcResult { dry_run: true, ..GcResult::default() }, 0) else {
        unreachable!()
    };
    let j = GcResultJson::from_result(&r, scope);
    assert!(!j.dry_run && j.global && j.orphans_included);
    assert_eq!(j.pool_count, 0);
    let (out, err) = render_str(OutputFormat::Human, &CommandResult::Gc(reclaimed(), here()));
    let t = render_gc(true, &reclaimed());
    assert_eq!((out, err), (t.out, t.err));
}

// ---------- doctor ----------

fn plain(name: &'static str, status: Severity) -> DoctorCheck {
    DoctorCheck { name, status, detail: "".into(), count: 0, bytes: None, affected: vec![] }
}

#[test]
fn severity_order() {
    assert_eq!(Severity::Okay as u8, 0);
    assert_eq!(Severity::Warn as u8, 1);
    assert_eq!(Severity::Error as u8, 2);
}

#[test]
fn report_counts() {
    let r = DoctorReport {
        checks: vec![
            plain("a", Severity::Okay),
            plain("b", Severity::Warn),
            plain("c", Severity::Error),
        ],
        healthy: false,
        strict_healthy: false,
    };
    assert_eq!(r.error_count(), 1);
    assert_eq!(r.warn_count(), 1);
}

fn probes() -> DoctorProbes {
    DoctorProbes {
        git_version: Some("git version 2.47.0\n".into()),
        max_trees: 16,
        state_path: "/pool/treehouse-state.json".into(),
        state: StateProbe::Content(state_bytes(&State::default())),
        write_error: None,
        lock_error: None,
        disk_low: false,
        disk_percent: "100.0".into(),
        disk_free: 0,
    }
}

fn entry(name: &str) -> WorktreeEntry {
    WorktreeEntry { name: name.into(), path: format!("/pool/{name}/repo"), ..Default::default() }
}

fn fact(name: &str, orphaned: bool, dirty: bool) -> DoctorFacts {
    DoctorFacts {
        dir: Some(format!("/pool/{name}/repo")),
        orphaned,
        dirty,
        reclaimable: name == "3",
        bytes: 1000,
    }
}

fn table() -> ProcessTable {
    ProcessTable::new(vec![ProcessRecord {
        pid: 50,
        parent: Some(1),
        started_at: 1_725_000_000_000,
        cwd: Some("/pool/2/repo/src".into()),
        name: "vim".into(),
    }])
}

#[test]
fn a_fresh_pool_is_healthy() {
    let now = dt("2026-08-14T12:00:00Z");
    let r = run_doctor(&probes(), &State::default(), &table(), &vec![], now);
    assert!(r.healthy);
    assert!(r.strict_healthy);
    assert!(!r.failed(true));
    assert_eq!(r.checks.len(), 12);
    let t = render_report(OutputFormat::Human, &r);
    assert!(t.out.starts_with("🌳 treehouse doctor\n  ✓ git binary: git version 2.47.0\n  ✓ config: max_trees = 16\n"));
    assert!(t.out.ends_with("  ✓ disk: 100.0% free on pool volume\nDoctor: 0 error(s), 0 warning(s)\n"));
    let v: serde_json::Value =
        serde_json::from_str(&render_report(OutputFormat::Json, &r).out).unwrap();
    assert_eq!(v["healthy"], true);
    assert_eq!(v["checks"][11]["name"], "disk");
    assert_eq!(v["checks"][11]["bytes"], 0);
    assert!(v["checks"][0]["bytes"].is_null());
    assert_eq!(report_json(&r), v);
    assert!(render_report(OutputFormat::Toon, &r).out.contains("healthy: true"));
}

#[test]
fn worktrees_are_sorted_into_groups() {
    let now = dt("2026-08-14T12:00:00Z");
    let mut dead = entry("1");
    dead.owner_pid = 9;
    dead.owner_started_at = 9;
    let mut stale = entry("3");
    mark_acquired_lease(&mut stale, "h", dt("2026-08-14T10:00:00Z"));
    stale.expires_at = dt("2026-08-14T11:00:00Z");
    let mut active = entry("4");
    mark_acquired_lease(&mut active, "h", dt("2026-08-14T10:00:00Z"));
    let mut going = entry("5");
    going.destroying = true;
    let mut stuck = stale.clone();
    stuck.path = "/pool/6/repo".into();
    let state = State { worktrees: vec![dead, entry("2"), stale, active, going, stuck] };
    let facts = vec![
        fact("1", true, false),
        fact("2", false, true),
        fact("3", false, false),
        fact("4", false, false),
        fact("5", true, true),
        fact("6", false, false),
    ];
    let checks = inspect_worktrees(&state, &table(), &facts, now);
    let find = |n: &str| checks.iter().find(|c| c.name == n).unwrap();
    assert_eq!(find("dead_owners").affected, ["/pool/1/repo"]);
    assert_eq!(find("stale_leases").affected, ["/pool/3/repo", "/pool/6/repo"]);
    assert_eq!(find("stale_leases").detail, "2 (1 reclaimable, 2 KiB)");
    assert_eq!(find("stale_leases").bytes, Some(2000));
    assert_eq!(find("active_leases").count, 1);
    assert_eq!(find("active_leases").detail, "1 valid lease(s)");
    assert_eq!(find("orphans").affected, ["/pool/1/repo"]);
    assert_eq!(find("dirty").affected, ["/pool/2/repo"]);
    assert_eq!(find("in_use").affected, ["/pool/2/repo"]);
    assert_eq!(find("in_use").status, Severity::Warn);
    let r = run_doctor(&probes(), &state, &table(), &facts, now);
    assert!(r.healthy);
    assert!(!r.strict_healthy);
    assert!(r.failed(true));
    assert!(!r.failed(false));
    assert_eq!(r.warn_count(), 5);
}

#[test]
fn broken_probes_are_errors() {
    let mut p = probes();
    p.git_version = None;
    p.state = StateProbe::Content(b"".to_vec());
    p.write_error = Some("denied".into());
    p.lock_error = Some("timeout".into());
    p.disk_low = true;
    p.disk_percent = "3.2".into();
    let r = run_doctor(&p, &State::default(), &table(), &vec![], dt("2026-08-14T12:00:00Z"));
    assert_eq!(r.error_count(), 4);
    assert_eq!(r.warn_count(), 1);
    assert!(r.failed(false));
    assert_eq!(r.checks[2].affected, ["/pool/treehouse-state.json"]);
    assert_eq!(r.checks[3].detail, "pool dir not writable: denied");
    assert_eq!(r.checks[4].detail, "state lock is wedged: timeout");
    assert_eq!(check_git_binary(None).detail, "git binary not found on PATH");
    assert_eq!(check_disk(true, "3.2", 5).status, Severity::Warn);
    let unreadable = check_state("/s", &StateProbe::Unreadable("e".into()));
    assert_eq!(unreadable.detail, "cannot read state file: e");
    assert_eq!(check_state("/s", &StateProbe::Missing).detail, "no state file (fresh pool)");
}

// ---------- the command line ----------

#[test]
fn parse_duration_seconds() {
    let d = parse_duration("30s").unwrap();
    assert_eq!(d, Span::from_secs(30));
}

#[test]
fn parse_duration_minutes() {
    let d = parse_duration("5m").unwrap();
    assert_eq!(d, Span::from_secs(300));
}

#[test]
fn parse_duration_complex() {
    let d = parse_duration("1h30m").unwrap();
    assert_eq!(d, Span::from_secs(5400));
}

#[test]
fn parse_duration_invalid() {
    assert!(parse_duration("banana").is_err());
    assert!(parse_duration("").is_err());
}

#[test]
fn parse_duration_zero_is_valid_parse_but_rejected_by_cmd() {
    let d = parse_duration("0s").unwrap();
    assert_eq!((d.secs, d.nanos), (0, 0), "0s parses to a zero duration");
    let args = WatchArgs { once: false, interval: Some(d), yes: false, prune_orphans: false };
    assert_eq!(
        args.pause().unwrap_err(),
        "🌳 error: --interval must be greater than zero"
    );
}

#[test]
fn durations_of_many_digits() {
    assert_eq!(parse_duration("18446744073709551615s").unwrap().secs, u64::MAX);
    assert_eq!(parse_duration("1500ms").unwrap(), Span { secs: 1, nanos: 500_000_000 });
    assert_eq!(parse_duration("0000000000000001m").unwrap(), Span::from_secs(60));
    assert_eq!(parse_duration("100000000000000000ns").unwrap(), Span::from_secs(100_000_000));
    assert_eq!(
        parse_duration("18446744073709551615ns").unwrap(),
        Span { secs: 18_446_744_073, nanos: 709_551_615 }
    );
    assert_eq!(parse_duration("307445734561825860m 1ms").unwrap().nanos, 1_000_000);
    assert_eq!(
        parse_duration("18446744073709551614s 1ms").unwrap(),
        Span { secs: u64::MAX - 1, nanos: 1_000_000 }
    );
    assert_eq!(
        parse_duration("18446744073709551615.5s").unwrap(),
        Span { secs: u64::MAX, nanos: 500_000_000 }
    );
    let too_large = "number is too large or cannot be represented without a lack of precision (values below 1ns are not supported)";
    assert_eq!(parse_duration("18446744073709551615s1000ms").unwrap_err(), too_large);
    assert_eq!(parse_duration("99999999999999999999s").unwrap_err(), too_large);
    assert_eq!(parse_duration("99999999999999999999s 1ms").unwrap_err(), too_large);
    assert_eq!(parse_duration("").unwrap_err(), "value was empty");
}

#[test]
fn watch_args_defaults() {
    let args = WatchArgs { once: false, interval: None, yes: false, prune_orphans: false };
    assert!(!args.once);
    assert!(args.interval.is_none());
    assert!(!args.yes);
    assert!(!args.prune_orphans);
    assert_eq!(args.pause().unwrap(), Span::from_secs(60));
    assert!(args.options().dry_run);
}

#[test]
fn shutdown_flag_stops_loop_quickly() {
    assert_eq!(watch_step(true, None, 60_000, false), WatchStep::Stop(0));
    assert_eq!(watch_step(true, Some(5), 60_000, true), WatchStep::Stop(1));
}

#[test]
fn sweep_interval_sleep_is_after_sweep_not_from_start() {
    assert_eq!(watch_step(false, None, 100, false), WatchStep::Sweep);
    assert_eq!(watch_step(false, Some(0), 100, false), WatchStep::Sleep);
    assert_eq!(watch_step(false, Some(99), 100, true), WatchStep::Sleep);
    assert_eq!(watch_step(false, Some(100), 100, false), WatchStep::Sweep);
}

#[test]
fn watches_report_each_sweep() {
    assert_eq!(
        watch_banner(Span::from_secs(5400)),
        "🌳 treehouse watch: sweeping every 1h 30m. Press Ctrl-C to stop."
    );
    assert_eq!(
        watch_report(true, true, &GcResult::default()).err,
        "🌳 All pools clean. Nothing to reclaim.\n"
    );
    assert_eq!(watch_report(false, true, &GcResult::default()).err, "🌳 All pools clean.\n");
    assert_eq!(watch_report(false, true, &reclaimed()), render_gc(true, &reclaimed()));
}

#[test]
fn formats_are_resolved() {
    let (human, json, toon) = (OutputFormat::Human, OutputFormat::Json, OutputFormat::Toon);
    assert_eq!(resolve_format(human, false, false), Ok(human));
    assert_eq!(resolve_format(human, true, true), Ok(json));
    assert_eq!(resolve_format(json, true, true), Ok(json));
    assert_eq!(resolve_format(toon, false, true), Ok(toon));
    assert_eq!(
        resolve_format(toon, true, true),
        Err("conflicting output formats: --json and --format toon".to_string())
    );
    assert_eq!(resolve_format(human, true, false), Err("--json requires --lease".to_string()));
    assert_eq!(
        resolve_format(json, false, false),
        Err("--format json requires --lease".to_string())
    );
    assert_eq!(format_variant_str(human), "human");
}

fn get_args(lease: bool, ttl: Option<&str>) -> GetArgs {
    GetArgs { lease, lease_holder: None, ttl: ttl.map(|s| s.to_string()), json: false }
}

#[test]
fn a_ttl_is_for_leases() {
    assert_eq!(
        get_format(OutputFormat::Human, &get_args(false, Some("1h"))),
        Err("--ttl requires --lease".to_string())
    );
    assert_eq!(
        get_format(OutputFormat::Human, &get_args(true, Some("1h"))),
        Ok(OutputFormat::Human)
    );
    assert_eq!(
        get_format(OutputFormat::Json, &get_args(false, Some("1h"))),
        Err("--format json requires --lease".to_string())
    );
}

#[test]
fn lease_options_come_from_arguments_or_the_environment() {
    let o = lease_options(&get_args(true, Some("1h")), &None, &Some("2h".into())).unwrap();
    assert_eq!(o.holder, "");
    assert_eq!(o.ttl, Some(Span::from_secs(3600)));
    let o = lease_options(&get_args(true, None), &Some("me".into()), &Some("2h".into())).unwrap();
    assert_eq!(o.holder, "me");
    assert_eq!(o.ttl, Some(Span::from_secs(7200)));
    let o = lease_options(&get_args(true, None), &None, &None).unwrap();
    assert_eq!(o.ttl, None);
    assert_eq!(
        lease_options(&get_args(true, Some("0s")), &None, &None).unwrap_err(),
        "--ttl must be greater than zero"
    );
    assert_eq!(
        lease_options(&get_args(true, Some("18446744073709551615s")), &None, &None).unwrap_err(),
        "Source duration value is out of range for the target type"
    );
    assert!(lease_options(&get_args(true, Some("soon")), &None, &None).is_err());
    assert_eq!(check_ttl(Span::from_secs(1)), Ok(Span::from_secs(1)));
}

#[test]
fn lease_lengths_end_with_the_largest_delta() {
    let max = Span { secs: 9_223_372_036_854_775, nanos: 807_000_000 };
    assert!(is_lease_span(max));
    assert!(!is_lease_span(Span { secs: max.secs, nanos: 807_000_001 }));
    for s in [max, Span { secs: max.secs, nanos: 807_000_001 }, Span::from_secs(max.secs + 1)] {
        let std = std::time::Duration::new(s.secs, s.nanos);
        assert_eq!(is_lease_span(s), chrono::TimeDelta::from_std(std).is_ok());
    }
}

#[test]
fn a_given_root_comes_before_a_configured_one() {
    let config = TreehouseConfig {
        max_trees: 3,
        root: Some("/configured".into()),
        hooks: Hooks { post_create: strings(&["a"]), pre_destroy: vec![] },
        lease_ttl_secs: Some(9),
    };
    assert_eq!(settings_for(&config, &None), config);
    let given = settings_for(&config, &Some("/given".into()));
    assert_eq!(given, TreehouseConfig { root: None, ..config });
}

#[test]
fn a_missing_command_is_a_get() {
    assert_eq!(command_or_get(None), Command::Get(get_args(false, None)));
    let c = Command::Status(StatusArgs { json: true });
    assert_eq!(command_or_get(Some(c.clone())), c);
}

#[test]
fn worktrees_are_entered_by_name() {
    let v = vec![ws("1", "available"), ws("2", "leased")];
    assert_eq!(find_named(&v, "2").unwrap(), "/pool/2/repo");
    assert_eq!(
        find_named(&v, "9").unwrap_err(),
        "no worktree named \"9\": the pool is empty. Run 'treehouse get' to create one"
    );
}

#[test]
fn returns_name_their_worktree() {
    let mut args = ReturnArgs { force: false, if_lease_id: None, if_lease_holder: None, path: None };
    assert_eq!(return_request(&args, &None).unwrap_err(), "no worktree path specified");
    assert_eq!(return_request(&args, &Some("/env".into())).unwrap().0, "/env");
    args.path = Some("/arg".into());
    args.if_lease_id = Some("abc".into());
    args.if_lease_holder = Some("h".into());
    let (path, pre) = return_request(&args, &Some("/env".into())).unwrap();
    assert_eq!(path, "/arg");
    assert_eq!(pre.expected_lease_id.as_deref(), Some("abc"));
    assert_eq!(pre.expected_lease_holder.as_deref(), Some("h"));
    args.if_lease_id = Some(String::new());
    assert_eq!(return_request(&args, &None).unwrap_err(), "--if-lease-id must not be empty");
}

#[test]
fn answers_are_yes_by_default() {
    for yes in ["", "\n", "y\n", "Y", " yes \n", "YES", "yEs"] {
        assert!(is_affirmative(yes), "{yes:?}");
    }
    for no in ["n", "no", "ye", "yess", "x", "ja"] {
        assert!(!is_affirmative(no), "{no:?}");
    }
}

fn destroy_args(all: bool, path: Option<&str>) -> DestroyArgs {
    DestroyArgs {
        all,
        yes: true,
        include_unlanded: true,
        include_in_use: false,
        include_leased: false,
        path: path.map(|s| s.to_string()),
    }
}

#[test]
fn destroys_are_about_one_worktree_or_a_pool() {
    let hooks = Hooks { post_create: vec![], pre_destroy: strings(&["teardown.sh"]) };
    let (spec, opts) = destroy_request(&destroy_args(false, Some("/pool/1/repo")), "/pool", &hooks).unwrap();
    assert_eq!(spec, DestroyTargetSpec::Single("/pool/1/repo".into()));
    assert!(!opts.dry_run);
    assert!(opts.include_unlanded);
    assert_eq!(opts.pre_destroy, ["teardown.sh"]);
    for p in [Some("."), Some("/h/.treehouse"), Some("/pool")] {
        assert_eq!(
            destroy_request(&destroy_args(true, p), "/pool", &hooks).unwrap().0,
            DestroyTargetSpec::All
        );
    }
    assert_eq!(
        destroy_request(&destroy_args(true, Some("/pool/1/repo")), "/pool", &hooks).unwrap_err(),
        "--all takes a pool path, not a worktree path"
    );
    assert_eq!(
        destroy_request(&destroy_args(true, None), "/pool", &hooks).unwrap_err(),
        "--all requires a pool path"
    );
    let mut args = destroy_args(true, None);
    args.include_leased = true;
    assert_eq!(
        destroy_request(&args, "/pool", &hooks).unwrap_err(),
        "--include-leased cannot be combined with --all"
    );
}

#[test]
fn a_destroy_that_left_its_worktree_fails() {
    let r = destroyed();
    assert_eq!(
        destroy_failure(&r, false, false),
        Some("did not destroy 2 (dirty); re-run with --include-in-use, --include-unlanded".into())
    );
    assert_eq!(destroy_failure(&r, true, false), None);
    assert_eq!(destroy_failure(&r, false, true), None);
    let mut done = destroyed();
    done.destroyed = done.planned.clone();
    assert_eq!(destroy_failure(&done, false, false), None);
}

#[test]
fn options_follow_the_flags() {
    let p = PruneArgs { yes: true, all: false, prune_orphans: true, verbose: false }.options();
    assert!(!p.dry_run && p.prune_orphans);
    let g = GcArgs { yes: false, all: true, prune_orphans: false, verbose: true }.options();
    assert!(g.dry_run && !g.prune_orphans);
}

#[test]
fn sweep_callback_error_isolation_real_pattern() {
    let g = failed_gc("/pools/b", true, "simulated pool error");
    assert!(g.dry_run);
    assert_eq!(g.errors.len(), 1);
    assert_eq!(g.errors[0].phase, "pool_gc");
    assert!(g.errors[0].detail.contains("simulated pool error"));
    assert_eq!(sweep_exit_code(&g.errors), 1);
    let p = failed_prune("/pools/b", false, "boom");
    assert_eq!(p.errors[0].phase, "pool_prune");
    assert_eq!(p.errors[0].path, "/pools/b");
    assert_eq!(sweep_exit_code(&vec![]), 0);
}

#[test]
fn init_writes_a_commented_file_once() {
    assert_eq!(
        init_text(false).unwrap(),
        "# treehouse.toml\n# Maximum number of worktrees in the pool\nmax_trees = 16\n\n# Optional worktree root directory.\n# root = \"$HOME/worktrees\"\n"
    );
    assert_eq!(init_text(true).unwrap_err(), "treehouse.toml already exists");
}

#[test]
fn updates_are_announced() {
    assert_eq!(
        update_message("3.0.0", "4.0.0", true),
        "🌳 Successfully updated treehouse 3.0.0 -> 4.0.0"
    );
    assert_eq!(update_message("3.0.0", "3.0.0", false), "🌳 treehouse is up to date (3.0.0)");
    assert!(update_notice("3.0.0", "4.0.0").starts_with("A new version of treehouse is available: 3.0.0 -> 4.0.0\n"));
    assert!(shows_notice("3.0.0", false, false));
    assert!(!shows_notice("dev", false, false));
    assert!(!shows_notice("3.0.0", true, false));
    assert!(!shows_notice("3.0.0", false, true));
}

// ---------- run ----------

#[test]
fn run_options_default() {
    let opts = RunOptions::for_process(4242);
    assert_eq!(opts.ttl, Span::from_secs(24 * 3600));
    assert!(opts.holder.starts_with("run:"));
    assert_eq!(opts.holder, "run:4242");
}

#[test]
fn cleanup_outcome_variants() {
    match CleanupOutcome::Cleaned {
        CleanupOutcome::Cleaned => {}
        CleanupOutcome::CleanupFailed(_) => panic!(),
    }
    assert_eq!(cleanup_outcome(None), CleanupOutcome::Cleaned);
    assert_eq!(cleanup_outcome(Some("x")), CleanupOutcome::CleanupFailed("x".into()));
}

#[test]
fn run_arguments_are_flags_and_a_command() {
    let r = parse_run_args(&strings(&["run", "--ttl", "2m", "--lease-holder", "me", "--", "ls", "-l"]))
        .unwrap();
    assert_eq!(r.ttl, Some(Span::from_secs(120)));
    assert_eq!(r.holder.as_deref(), Some("me"));
    assert_eq!(r.command, ["ls", "-l"]);
    let r = parse_run_args(&strings(&["run", "--", "--", "x"])).unwrap();
    assert_eq!(r.command, ["x"]);
    let r = parse_run_args(&strings(&["ls", "--ttl", "5m"])).unwrap();
    assert_eq!(r.command, ["ls", "--ttl", "5m"]);
    assert_eq!(r.ttl, None);
    let e = |v: &[&str]| parse_run_args(&strings(v)).unwrap_err();
    assert_eq!(e(&["run", "--ttl"]), "--ttl requires a value");
    assert_eq!(e(&["run", "--lease-holder"]), "--lease-holder requires a value");
    assert_eq!(e(&["run"]), "run requires a command");
    assert_eq!(e(&["run", "--ttl", "2m", "--"]), "run requires a command");
    assert!(parse_run_args(&strings(&["run", "--ttl", "soon", "x"])).is_err());
}

#[test]
fn run_options_fall_back() {
    let o = run_options(strings(&["x"]), None, Some(30), None, Some("env".into()), 7);
    assert_eq!(o.ttl, Span::from_secs(30));
    assert_eq!(o.holder, "env");
    let o = run_options(strings(&["x"]), Some(Span::from_secs(1)), Some(30), Some("me".into()), None, 7);
    assert_eq!(o.ttl, Span::from_secs(1));
    assert_eq!(o.holder, "me");
    let o = run_options(strings(&["x"]), None, Some(0), None, None, 7);
    assert_eq!(o.ttl, Span::from_secs(86_400));
    assert_eq!(o.holder, "run:7");
}

#[test]
fn runs_lease_for_a_limited_time() {
    let mut o = RunOptions::for_process(7);
    o.ttl = Span::from_secs(u64::MAX);
    let a = run_acquire(&o);
    assert_eq!(a.lease.unwrap().ttl, Some(Span::from_secs(86_400)));
    o.ttl = Span::from_secs(5);
    let lease = run_acquire(&o).lease.unwrap();
    assert_eq!(lease.ttl, Some(Span::from_secs(5)));
    assert_eq!(lease.holder, "run:7");
    assert_eq!(
        child_env("/pool/1/repo", "abc"),
        vec![
            ("TREEHOUSE_DIR".to_string(), "/pool/1/repo".to_string()),
            ("TREEHOUSE_LEASE_ID".to_string(), "abc".to_string())
        ]
    );
    assert_eq!(cleanup_preconditions("abc").expected_lease_id.as_deref(), Some("abc"));
}

#[test]
fn runs_end_with_the_code_of_their_command() {
    assert_eq!(child_status(None, Some(3)), (Some(3), None));
    assert_eq!(child_status(None, None), (Some(0), None));
    assert_eq!(child_status(Some(9), None), (None, Some(9)));
    let r = finish_run("/p", "abc", "h", None, Some(1), None);
    assert_eq!(exit_code(&r), 1);
    assert_eq!(r.cleanup, CleanupOutcome::Cleaned);
    let r = finish_run("/p", "abc", "h", Some(15), None, Some("gone"));
    assert_eq!(exit_code(&r), 143);
    assert_eq!(r.cleanup, CleanupOutcome::CleanupFailed("gone".into()));
}
