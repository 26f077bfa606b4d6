use treehouse_core::env::{InMemoryEnv, TreehouseEnv};
use treehouse_core::config::{ConfigError, TreehouseConfig};
use treehouse_core::git::{
    add_args, branch_ref, common_dir_args, default_branch, detach_args, dirty_from, fetch_outcome,
    fresh_merge_ref, has_remote, local_merge_ref, main_repo_root_from, merged_from,
    origin_merge_ref, parse_ls_remote, remote_url, remove_args, remove_clean_args, repo_root_args,
    repo_root_from, reset_plan, short_digest, short_hash, status_args, BranchStep, GitError,
    GitErrorKind, GitOutput, ShellGitBackend,
};
use treehouse_core::hooks::{hook_args, run, run_one, windows_shell_command_line, HookOutcome};
use treehouse_core::lease::mark_acquired_lease;
use treehouse_core::lock::{lock_error, lock_step, next_backoff, LockError, LockStep};
use treehouse_core::pool::{
    acquire_step, cwd_in_worktree, find_entry, find_idle, lease_end, lease_info, mark_acquired_as,
    mark_acquired_entry, needs_dirty_check, new_entry, next_name, recheck_acquired,
    releasable_worktree, release, release_conditional, validate_release_preconditions,
    worktree_status, AcquireOptions, AcquireStep, Acquired, LeaseAcquireOptions, OpenOptions, Pool,
    PoolError, ReleasePreconditions, STATUS_AVAILABLE, STATUS_DIRTY, STATUS_HERE, STATUS_IN_USE,
    STATUS_LEASED,
};
use treehouse_core::process::{ProcessRecord, ProcessTable};
use treehouse_core::state::{State, StateError, WorktreeEntry};
use treehouse_core::time::{parse_rfc3339, Span, Timestamp};
use treehouse_core::updater::{
    cache_path, check_latest, is_cache_stale, is_check_stale, new_cache, read_cache,
    update_available, url_allowed, write_cache, UpdateCheckCache, Version,
};

fn dt(s: &str) -> Timestamp {
    parse_rfc3339(s).unwrap()
}

fn now() -> Timestamp {
    dt("2026-08-14T12:00:00Z")
}

fn table() -> ProcessTable {
    ProcessTable::new(vec![
        ProcessRecord {
            pid: 50,
            parent: Some(1),
            started_at: 1_725_000_000_000,
            cwd: Some("/pool/1/repo/src".into()),
            name: "vim".into(),
        },
        ProcessRecord {
            pid: 60,
            parent: Some(1),
            started_at: 1_725_000_050_000,
            cwd: Some("/home/u".into()),
            name: "sh".into(),
        },
    ])
}

fn named(name: &str) -> WorktreeEntry {
    WorktreeEntry { name: name.into(), ..Default::default() }
}

fn at(name: &str, path: &str) -> WorktreeEntry {
    WorktreeEntry { name: name.into(), path: path.into(), ..Default::default() }
}

fn ok(stdout: &str) -> GitOutput {
    GitOutput { code: Some(0), stdout: stdout.into(), stderr: String::new() }
}

fn bad(stderr: &str) -> GitOutput {
    GitOutput { code: Some(128), stdout: String::new(), stderr: stderr.into() }
}

#[test]
fn next_name_increments() {
    let s = State { worktrees: vec![named("1"), named("3")] };
    assert_eq!(next_name(&s), "4");
    assert_eq!(next_name(&State::default()), "1");
}

#[test]
fn next_name_ignores_non_numeric() {
    let s = State { worktrees: vec![named("abc")] };
    assert_eq!(next_name(&s), "1");
}

#[test]
fn cwd_in_worktree_detects_self_and_descendant() {
    let wt = "/home/u/proj/.treehouse/repo-abc/1/repo";
    assert!(cwd_in_worktree(wt, wt));
    assert!(cwd_in_worktree(&format!("{wt}/src"), wt));
    assert!(!cwd_in_worktree("/home/u/proj", wt));
    assert!(!cwd_in_worktree("/home/u/proj/other", wt));
}

#[test]
fn releasable_worktree_validates_preconditions() {
    let mut state = State { worktrees: vec![at("1", "/pool/1/repo")] };
    let i = releasable_worktree(&state, "/pool/1/repo", &ReleasePreconditions::default()).unwrap();
    assert_eq!(state.worktrees[i].name, "1");
    assert!(matches!(
        releasable_worktree(&state, "/nope", &ReleasePreconditions::default()),
        Err(PoolError::NotFound(_))
    ));
    state.worktrees[0].destroying = true;
    assert!(matches!(
        releasable_worktree(&state, "/pool/1/repo", &ReleasePreconditions::default()),
        Err(PoolError::BeingDestroyed(_))
    ));
    state.worktrees[0].destroying = false;
    let cond = ReleasePreconditions {
        expected_lease_id: Some("abc".into()),
        ..Default::default()
    };
    assert!(matches!(
        releasable_worktree(&state, "/pool/1/repo", &cond),
        Err(PoolError::LeasePrecondition { .. })
    ));
    mark_acquired_lease(&mut state.worktrees[0], "h", Timestamp::now());
    assert!(releasable_worktree(&state, "/pool/1/repo", &cond).is_err());
    state.worktrees[0].lease_id = "abc".into();
    assert!(releasable_worktree(&state, "/pool/1/repo", &cond).is_ok());
    assert!(validate_release_preconditions(&state, "/pool/1/repo", &cond).is_ok());
    let holder = ReleasePreconditions {
        expected_lease_id: Some("abc".into()),
        expected_lease_holder: Some("someone".into()),
    };
    assert!(matches!(
        validate_release_preconditions(&state, "/pool/1/repo", &holder),
        Err(PoolError::LeasePrecondition { .. })
    ));
}

#[test]
fn status_constants_match_go() {
    assert_eq!(STATUS_AVAILABLE, "available");
    assert_eq!(STATUS_IN_USE, "in-use");
    assert_eq!(STATUS_DIRTY, "dirty");
    assert_eq!(STATUS_LEASED, "leased");
    assert_eq!(STATUS_HERE, "you're here");
}

#[test]
fn idle_worktrees_are_handed_out_in_order() {
    let mut state = State { worktrees: vec![at("1", "/pool/1/repo"), at("2", "/pool/2/repo")] };
    let dirs = vec![Some("/pool/1/repo".to_string()), Some("/pool/2/repo".to_string())];
    let step = acquire_step(&state, &table(), &dirs, 0, 16, "/pool", "/work/repo");
    assert_eq!(step, AcquireStep::CheckDirty(1), "the first has a process");
    mark_acquired_as(&mut state.worktrees[1], &None, "", now(), 60, &table());
    let step = acquire_step(&state, &table(), &dirs, 0, 16, "/pool", "/work/repo");
    assert_eq!(
        step,
        AcquireStep::Create { name: "3".into(), path: "/pool/3/repo".into() }
    );
    let step = acquire_step(&state, &table(), &dirs, 0, 2, "/pool", "/work/repo");
    assert_eq!(step, AcquireStep::Full { count: 2, max: 2 });
}

#[test]
fn numbers_matter_only_where_a_worktree_is_created() {
    let mut state = State { worktrees: vec![at("2147483647", "/pool/9/repo")] };
    let dirs = vec![Some("/pool/9/repo".to_string())];
    assert_eq!(find_idle(&state, &table(), &dirs, 0), Some(0));
    assert_eq!(find_idle(&state, &table(), &dirs, 1), None);
    let step = acquire_step(&state, &table(), &dirs, 0, 16, "/pool", "/work/repo");
    assert_eq!(step, AcquireStep::CheckDirty(0));
    mark_acquired_as(&mut state.worktrees[0], &None, "", now(), 60, &table());
    let step = acquire_step(&state, &table(), &dirs, 0, 1, "/pool", "/work/repo");
    assert_eq!(step, AcquireStep::Full { count: 1, max: 1 });
}

#[test]
fn a_lease_is_stamped_with_its_end() {
    let mut wt = new_entry("1", "/pool/1/repo", now());
    assert_eq!(wt.created_at, now());
    let opts = Some(LeaseAcquireOptions { holder: "agent".into(), ttl: Some(Span::from_secs(90)) });
    let lease = mark_acquired_as(&mut wt, &opts, "id-1", now(), 60, &table()).unwrap();
    assert_eq!(lease.id, "id-1");
    assert_eq!(lease.expires_at, Some(dt("2026-08-14T12:01:30Z")));
    assert_eq!(wt.expires_at, dt("2026-08-14T12:01:30Z"));
    assert!(wt.leased);
    assert_eq!(wt.owner_pid, 0);
    assert!(wt.is_valid_lease(dt("2026-08-14T12:01:29Z")));
    assert!(wt.is_stale_lease(dt("2026-08-14T12:01:30Z")));
    assert_eq!(lease_end(now(), None), None);
}

#[test]
fn leases_get_an_identity_of_their_own() {
    let opts = Some(LeaseAcquireOptions { holder: "agent".into(), ttl: None });
    let mut a = new_entry("1", "/pool/1/repo", now());
    let mut b = new_entry("2", "/pool/2/repo", now());
    let la = mark_acquired_entry(&mut a, &opts, now(), 60, &table()).unwrap();
    let lb = mark_acquired_entry(&mut b, &opts, now(), 60, &table()).unwrap();
    assert_eq!(la.id.len(), 32);
    assert_ne!(la.id, lb.id);
    assert_eq!(a.lease_id, la.id);
    assert_eq!(la.expires_at, None);
}

#[test]
fn an_acquired_worktree_is_looked_up_again() {
    let mut state = State { worktrees: vec![new_entry("1", "/pool/1/repo", now())] };
    let opts = Some(LeaseAcquireOptions { holder: "agent".into(), ttl: None });
    let lease = mark_acquired_entry(&mut state.worktrees[0], &opts, now(), 60, &table());
    assert!(recheck_acquired(&state, "/pool/1/repo", &lease, 60, 0).is_ok());
    state.worktrees[0].lease_id = "other".into();
    assert!(matches!(
        recheck_acquired(&state, "/pool/1/repo", &lease, 60, 0),
        Err(PoolError::NotFound(_))
    ));
    assert!(recheck_acquired(&State::default(), "/pool/1/repo", &lease, 60, 0).is_err());
}

#[test]
fn owners_are_looked_up_again_too() {
    let mut state = State { worktrees: vec![new_entry("1", "/pool/1/repo", now())] };
    let none = mark_acquired_as(&mut state.worktrees[0], &None, "", now(), 60, &table());
    assert!(none.is_none());
    let started = state.worktrees[0].owner_started_at;
    assert_eq!(started, 1_725_000_050_000);
    assert!(recheck_acquired(&state, "/pool/1/repo", &None, 60, started).is_ok());
    assert!(recheck_acquired(&state, "/pool/1/repo", &None, 61, started).is_err());
}

#[test]
fn lease_infos_tell_of_the_acquisition() {
    let mut wt = new_entry("1", "/pool/1/repo", now());
    let opts = Some(LeaseAcquireOptions { holder: "agent".into(), ttl: None });
    let lease = mark_acquired_entry(&mut wt, &opts, now(), 60, &table());
    let id = lease.as_ref().unwrap().id.clone();
    let acquired = Acquired {
        name: "1".into(),
        path: "/pool/1/repo".into(),
        branch: "main".into(),
        lease,
    };
    let info = lease_info(&acquired, "agent");
    assert_eq!(info.path, "/pool/1/repo");
    assert_eq!(info.lease_id, id);
    assert_eq!(info.lease_holder, "agent");
    assert_eq!(info.leased_at, now());
}

#[test]
fn a_conditional_release_goes_through_once() {
    let mut state = State { worktrees: vec![at("1", "/pool/1/repo"), at("2", "/pool/2/repo")] };
    let id = mark_acquired_lease(&mut state.worktrees[0], "h", now());
    let other = state.worktrees[1].clone();
    let pre = ReleasePreconditions { expected_lease_id: Some(id), ..Default::default() };
    assert!(release_conditional(&mut state, "/pool/1/repo", &pre).is_ok());
    assert!(!state.worktrees[0].leased);
    assert_eq!(state.worktrees[1], other);
    let before = state.clone();
    let e = release_conditional(&mut state, "/pool/1/repo", &pre).unwrap_err();
    assert!(e.message().starts_with("lease precondition failed: /pool/1/repo: "));
    assert_eq!(state, before);
    assert!(release(&mut state, "/pool/1/repo").is_ok());
    assert_eq!(
        release(&mut state, "/nope").unwrap_err().message(),
        "worktree /nope is not managed by treehouse"
    );
    assert_eq!(find_entry(&state, "/pool/2/repo"), Some(1));
    assert_eq!(find_entry(&state, "/nope"), None);
}

#[test]
fn the_identity_of_an_earlier_lease_releases_nothing() {
    let mut state = State { worktrees: vec![at("1", "/pool/1/repo")] };
    let first = mark_acquired_lease(&mut state.worktrees[0], "h", now());
    mark_acquired_lease(&mut state.worktrees[0], "h", now());
    let pre = ReleasePreconditions { expected_lease_id: Some(first), ..Default::default() };
    assert!(release_conditional(&mut state, "/pool/1/repo", &pre).is_err());
    assert!(state.worktrees[0].leased);
}

#[test]
fn statuses_are_told_in_order_of_weight() {
    let t = table();
    let dir = Some("/pool/1/repo");
    let mut wt = at("1", "/pool/1/repo");
    let busy = worktree_status(&wt, &t, dir, false, false, now()).unwrap();
    assert_eq!(busy.status, "in-use");
    assert_eq!(busy.processes.len(), 1);
    assert_eq!(worktree_status(&wt, &t, dir, true, false, now()).unwrap().status, "you're here");
    let idle = Some("/pool/9/repo");
    assert!(needs_dirty_check(&wt, &t, idle));
    assert!(!needs_dirty_check(&wt, &t, dir));
    assert_eq!(worktree_status(&wt, &t, idle, false, true, now()).unwrap().status, "dirty");
    assert_eq!(worktree_status(&wt, &t, idle, false, false, now()).unwrap().status, "available");
    wt.owner_pid = 60;
    wt.owner_started_at = 1_725_000_050_000;
    assert_eq!(worktree_status(&wt, &t, idle, false, false, now()).unwrap().status, "in-use");
    mark_acquired_lease(&mut wt, "agent", now());
    let leased = worktree_status(&wt, &t, dir, false, false, now()).unwrap();
    assert_eq!(leased.status, "leased");
    assert_eq!(leased.lease_holder, "agent");
    assert_eq!((leased.expires_at, leased.stale), (Timestamp::zero(), false));
    wt.expires_at = now();
    let expired = worktree_status(&wt, &t, dir, false, false, now()).unwrap();
    assert_eq!(expired.status, "leased");
    assert_eq!((expired.expires_at, expired.stale), (now(), true));
    let before = dt("2026-08-14T11:59:59Z");
    assert!(!worktree_status(&wt, &t, dir, false, false, before).unwrap().stale);
    wt.destroying = true;
    assert!(worktree_status(&wt, &t, dir, false, false, now()).is_none());
}

#[test]
fn pools_open_in_an_environment() {
    let env = InMemoryEnv::new("/custom".to_string());
    let opts = OpenOptions::default();
    let pool = Pool::open_with_env("/work/repo", None, &opts, env).unwrap();
    assert!(pool.env().path_exists(pool.pool_dir()));
    assert_eq!(pool.config, TreehouseConfig::default_config());
    let env = InMemoryEnv::new("/custom".to_string());
    let pool = Pool::open_at_with_env("/custom/app-123456", &opts, env).unwrap();
    assert_eq!(pool.pool_dir(), "/custom/app-123456");
    assert_eq!(pool.root, "/custom");
    let mut env = InMemoryEnv::new("/custom".to_string()).with_env("K", "v");
    env.seed_file("/custom/note", b"kept");
    let pool = Pool::open_with_env("/work/repo", None, &opts, env).unwrap();
    assert_eq!(pool.env().pool_root().as_deref(), Some("/custom"));
    assert_eq!(pool.env().env_var("K").as_deref(), Some("v"));
    assert_eq!(pool.env().read_file("/custom/note").unwrap(), "kept");
    let mut opts = OpenOptions::default();
    opts.config.root = Some("relative".into());
    let env = InMemoryEnv::new("/custom".to_string());
    assert!(matches!(
        Pool::open_with_env("", None, &opts, env),
        Err(PoolError::Config(ConfigError::Invalid(_, _)))
    ));
}

#[test]
fn acquire_options_default_to_an_owner() {
    let o = AcquireOptions::default();
    assert!(o.lease.is_none());
    assert!(o.branch.is_none());
}

#[test]
fn pool_errors_have_texts() {
    assert_eq!(
        PoolError::PoolFull { count: 2, max: 2 }.message(),
        "all 2 worktrees are in use or dirty (max_trees = 2). Run 'treehouse status' to see details, or increase max_trees in treehouse.toml"
    );
    assert_eq!(
        PoolError::BeingDestroyed("/p".into()).message(),
        "worktree /p is being destroyed"
    );
    assert_eq!(PoolError::Lock("x".into()).message(), "pool lock: x");
    assert_eq!(
        PoolError::State(StateError::Read("/s".into(), "e".into())).message(),
        "state: failed to read state file /s: e"
    );
    assert_eq!(
        PoolError::Config(ConfigError::Invalid("w".into(), String::new())).message(),
        "config: invalid config: w"
    );
    assert_eq!(
        PoolError::Git(GitError::new("status", "boom", GitErrorKind::Other)).message(),
        "git: git status: boom"
    );
    assert_eq!(PoolError::Io("reading".into(), "e".into()).message(), "io: reading");
}

// ---------- git ----------

#[test]
fn short_hash_is_6_hex() {
    let h = short_hash("https://github.com/foo/bar.git");
    assert_eq!(h.len(), 6);
    assert!(h.chars().all(|c| c.is_ascii_hexdigit()));
    assert_eq!(h, short_hash("https://github.com/foo/bar.git"));
    assert_eq!(short_hash("abc"), "ba7816");
    assert_eq!(short_digest(&[0xba, 0x78, 0x16, 0xbf]), "ba7816");
}

#[test]
fn discover_finds_git() {
    let g = ShellGitBackend::discover(Some("/usr/bin/git".into())).unwrap();
    assert_eq!(g.git_bin(), "/usr/bin/git");
    assert_eq!(ShellGitBackend::with_bin("/opt/git".into()).git_bin(), "/opt/git");
    let e = ShellGitBackend::discover(None).unwrap_err();
    assert_eq!(e.kind, GitErrorKind::NotFound);
}

#[test]
fn outputs_of_git_become_results() {
    let args = vec!["status".to_string(), "-s".to_string()];
    let o = GitErrorKind::Other;
    assert!(ShellGitBackend::run_checked(&ok(""), &args, o).is_ok());
    let e = ShellGitBackend::run_checked(&bad(" no \n"), &args, o).unwrap_err();
    assert_eq!(e.command, "git status -s");
    assert_eq!(e.message, "no");
    assert_eq!(ShellGitBackend::run_stdout(&ok(" x\n"), &args, o).unwrap(), "x");
    assert!(ShellGitBackend::run_lines(&bad("e"), &args, o).is_err());
    let killed = GitOutput { code: None, stdout: "x".into(), stderr: "e".into() };
    assert!(!killed.success());
    let lost = GitOutput::not_started("nope");
    assert_eq!(lost.stderr, "git binary failed to spawn: nope");
}

#[test]
fn repositories_are_found_by_their_git_directory() {
    assert_eq!(repo_root_args(), ["rev-parse", "--show-toplevel"]);
    assert!(common_dir_args().contains(&"--git-common-dir".to_string()));
    assert_eq!(repo_root_from(&ok("/work/app\n")).unwrap(), "/work/app");
    assert!(repo_root_from(&bad("not a repo")).is_err());
    assert_eq!(main_repo_root_from("/wt", &ok("/work/app/.git\n")), "/work/app");
    assert_eq!(main_repo_root_from("/wt", &ok("/bare/app.git\n")), "/wt");
    assert_eq!(main_repo_root_from("/wt", &bad("")), "/wt");
}

#[test]
fn remotes_are_listed_by_line() {
    assert!(has_remote(&ok("origin\nfork\n"), "origin"));
    assert!(!has_remote(&ok("origins\n"), "origin"));
    assert!(!has_remote(&bad("origin"), "origin"));
    assert_eq!(remote_url(&ok("https://x\n")), Some("https://x".to_string()));
    assert_eq!(remote_url(&bad("")), None);
    assert!(fetch_outcome(None).is_ok());
    assert!(fetch_outcome(Some(&ok(""))).is_ok());
    assert_eq!(
        fetch_outcome(Some(&bad("offline"))).unwrap_err().kind,
        GitErrorKind::OriginUnreachable
    );
}

#[test]
fn default_branches_are_asked_for_in_order() {
    assert_eq!(default_branch(true, &None, &None, &None), BranchStep::AskOriginHead);
    assert_eq!(
        default_branch(true, &Some(ok("refs/remotes/origin/main\n")), &None, &None),
        BranchStep::Found("main".into())
    );
    assert_eq!(default_branch(true, &Some(bad("")), &None, &None), BranchStep::AskLocalHead);
    assert_eq!(default_branch(false, &None, &None, &None), BranchStep::AskLocalHead);
    assert_eq!(
        default_branch(false, &None, &Some(ok("refs/heads/dev\n")), &None),
        BranchStep::Found("dev".into())
    );
    assert_eq!(default_branch(false, &None, &Some(bad("")), &None), BranchStep::AskConfigured);
    assert_eq!(
        default_branch(false, &None, &Some(bad("")), &Some(ok("trunk\n"))),
        BranchStep::Found("trunk".into())
    );
    match default_branch(false, &None, &Some(bad("")), &Some(ok("\n"))) {
        BranchStep::Unknown(e) => assert_eq!(e.kind, GitErrorKind::DefaultBranchUnresolvable),
        other => panic!("got {other:?}"),
    }
}

#[test]
fn the_newer_of_two_refs_is_taken() {
    assert_eq!(branch_ref("main", true, false, false, false), "refs/heads/main");
    assert_eq!(branch_ref("main", false, true, false, false), "refs/remotes/origin/main");
    assert_eq!(branch_ref("main", true, true, true, false), "refs/remotes/origin/main");
    assert_eq!(branch_ref("main", true, true, false, true), "refs/heads/main");
    assert_eq!(branch_ref("main", true, true, false, false), "refs/remotes/origin/main");
}

#[test]
fn the_head_of_origin_is_parsed() {
    let text = "ref: refs/heads/main\tHEAD\nabc123\tHEAD\n";
    let head = parse_ls_remote(text);
    assert_eq!(head.branch.as_deref(), Some("main"));
    assert_eq!(head.sha.as_deref(), Some("abc123"));
    assert_eq!(
        origin_merge_ref(&ok(text)).unwrap(),
        ("refs/remotes/origin/main".to_string(), "abc123".to_string())
    );
    assert_eq!(
        origin_merge_ref(&bad("offline")).unwrap_err().kind,
        GitErrorKind::OriginUnreachable
    );
    assert_eq!(
        origin_merge_ref(&ok("")).unwrap_err().kind,
        GitErrorKind::MergeRefUnresolvable
    );
    let e = origin_merge_ref(&ok("ref: refs/heads/main\tHEAD\n")).unwrap_err();
    assert_eq!(e.message, "cannot determine origin default branch commit");
}

#[test]
fn merge_refs_must_be_fresh() {
    assert!(fresh_merge_ref("main", "abc", Ok("abc".into())).is_ok());
    assert!(fresh_merge_ref("main", "abc", Ok("def".into())).is_err());
    let e = GitError::new("rev-parse", "gone", GitErrorKind::Other);
    assert!(fresh_merge_ref("main", "abc", Err(e.clone())).is_err());
    assert_eq!(local_merge_ref("main", Ok("abc".into())).unwrap(), "refs/heads/main");
    assert!(local_merge_ref("main", Err(e)).is_err());
}

#[test]
fn merged_and_dirty_are_told_by_git() {
    assert!(merged_from(&ok(""), "refs/heads/main").unwrap());
    let one = GitOutput { code: Some(1), stdout: String::new(), stderr: String::new() };
    assert!(!merged_from(&one, "refs/heads/main").unwrap());
    let e = merged_from(&bad("bad ref"), "refs/heads/main").unwrap_err();
    assert_eq!(e.kind, GitErrorKind::StatusFailed);
    assert!(dirty_from(&ok("?? x\n")).unwrap());
    assert!(!dirty_from(&ok("\n")).unwrap());
    assert_eq!(dirty_from(&bad("e")).unwrap_err().kind, GitErrorKind::Other);
    assert!(status_args().contains(&"status".to_string()));
}

#[test]
fn worktree_commands_are_spelled_out() {
    assert_eq!(add_args("/p/1/r", "main"), ["worktree", "add", "--detach", "/p/1/r", "main"]);
    assert_eq!(remove_args("/p/1/r"), ["worktree", "remove", "--force", "/p/1/r"]);
    assert_eq!(remove_clean_args("/p/1/r"), ["worktree", "remove", "/p/1/r"]);
    assert_eq!(detach_args(), ["checkout", "--detach"]);
    let plan = reset_plan("main");
    assert_eq!(plan[0], ["checkout", "--detach", "--force", "main"]);
    assert_eq!(plan[1], ["reset", "--hard", "main"]);
    assert_eq!(plan[2], ["clean", "-fd"]);
}

// ---------- hooks ----------

#[test]
fn empty_list_is_noop() {
    assert!(run(&vec![], &vec![]).is_empty());
}

#[test]
fn failing_hook_does_not_stop_remaining() {
    let commands = vec!["missing".to_string(), "echo hi".to_string(), "exit 3".to_string()];
    let outcomes = vec![
        HookOutcome::Failed("not found".into()),
        HookOutcome::Ended { code: Some(0), status: "exit status: 0".into() },
        HookOutcome::Ended { code: Some(3), status: "exit status: 3".into() },
    ];
    let lines = run(&commands, &outcomes);
    assert_eq!(lines.len(), 2);
    assert_eq!(lines[0], "🌳 hook command failed: \"missing\" (exit -1): not found");
    assert_eq!(
        lines[1],
        "🌳 hook command failed: \"exit 3\" (exit 3): command exited with status exit status: 3"
    );
}

#[test]
fn hook_failure_logs_and_returns() {
    let line = run_one("exit 3", &HookOutcome::Ended { code: Some(3), status: "s".into() }).unwrap();
    assert!(line.contains("hook command failed"), "expected failure log: {line}");
    let killed = HookOutcome::Ended { code: None, status: "signal: 9".into() };
    assert!(run_one("x", &killed).unwrap().contains("(exit -1)"));
    assert_eq!(hook_args("echo hi"), ["-c", "echo hi"]);
}

#[test]
fn windows_shell_command_line_wraps_quoted_command() {
    let shell = r"C:\Windows\System32\cmd.exe";
    let command = r#"echo hi > "C:\Temp\ran.txt""#;
    let got = windows_shell_command_line(shell, command);
    let want = format!("\"{shell}\" /d /s /c \"{command}\"");
    assert_eq!(got, want);
}

// ---------- lock ----------

#[test]
fn the_lock_is_tried_until_the_time_is_up() {
    assert_eq!(lock_step(0, 100, 10), LockStep::RetryAfter(10));
    assert_eq!(lock_step(99, 100, 10), LockStep::RetryAfter(10));
    assert_eq!(lock_step(100, 100, 10), LockStep::GiveUp);
    let mut pause: u64 = treehouse_core::lock::RETRY_BASE_MS;
    for _ in 0..20 {
        pause = next_backoff(pause);
    }
    assert_eq!(pause, 500);
}

#[test]
fn lock_errors_become_pool_errors() {
    let timeout: LockError<PoolError> = LockError::Timeout;
    assert_eq!(
        timeout.message(),
        "lock is held by another process; gave up after the lock timeout"
    );
    assert_eq!(
        lock_error(timeout).message(),
        "pool lock: lock is held by another process; gave up after the lock timeout"
    );
    let io: LockError<PoolError> = LockError::Io("/l".into(), "denied".into());
    assert_eq!(io.message(), "failed to open lock file /l: denied");
    assert!(matches!(lock_error(io), PoolError::Lock(_)));
    let inner: LockError<String> = LockError::Callback("boom".into());
    assert_eq!(inner.message(), "state operation under lock failed: boom");
}

#[test]
fn work_that_fails_under_the_lock_keeps_its_error() {
    let e = lock_error(LockError::Callback(PoolError::NotFound("/nope".into())));
    assert_eq!(e, PoolError::NotFound("/nope".into()));
    assert_eq!(e.message(), "worktree /nope is not managed by treehouse");
    let pre = PoolError::LeasePrecondition { path: "/p".into(), reason: "r".into() };
    assert_eq!(lock_error(LockError::Callback(pre)).message(), "lease precondition failed: /p: r");
}

// ---------- updates ----------

#[test]
fn version_parse_basic() {
    let v = Version::parse("v1.2.3").unwrap();
    assert_eq!(v, Version { major: 1, minor: 2, patch: 3, prerelease: None });
    let v2 = Version::parse("3.0.0-beta.1").unwrap();
    assert_eq!(v2.prerelease.as_deref(), Some("beta.1"));
    assert!(Version::parse("not-a-version").is_none());
}

#[test]
fn versions_are_read_back_from_their_text() {
    for (a, b, c) in [(0, 0, 0), (1, 20, 300), (u64::MAX, 0, u64::MAX)] {
        let plain = Version { major: a, minor: b, patch: c, prerelease: None };
        assert_eq!(Version::parse(&format!("{a}.{b}.{c}")), Some(plain.clone()));
        assert_eq!(Version::parse(&format!(" \tv{a}.{b}.{c}\n")), Some(plain));
        for p in ["", "rc.1", "a-b.c", "-"] {
            let pre = Version { major: a, minor: b, patch: c, prerelease: Some(p.to_string()) };
            assert_eq!(Version::parse(&format!("{a}.{b}.{c}-{p}")), Some(pre.clone()));
            assert_eq!(Version::parse(&format!("v{a}.{b}.{c}-{p}  ")), Some(pre));
        }
    }
}

#[test]
fn version_ordering() {
    assert!(Version::parse("2.0.0").unwrap() > Version::parse("1.9.9").unwrap());
    assert!(Version::parse("1.2.3").unwrap() < Version::parse("1.2.4").unwrap());
    assert!(Version::parse("1.2.3").unwrap() > Version::parse("1.2.3-beta.1").unwrap());
    assert!(Version::parse("1.2.3").unwrap() == Version::parse("v1.2.3").unwrap());
    assert!(Version::parse("1.2.3").unwrap().before(&Version::parse("1.10.0").unwrap()));
}

#[test]
fn https_enforced() {
    assert!(check_latest("http://insecure.example", true, Some("{\"tag_name\":\"v9\"}")).is_none());
    let _ = check_latest("http://insecure.example", false, None);
    assert!(!url_allowed("http://insecure.example", true));
    assert!(url_allowed("https://x", true));
    assert!(url_allowed("http://x", false));
}

#[test]
fn the_latest_release_is_read_from_its_tag() {
    let body = "{\"name\": \"x\", \"tag_name\": \"v4.5.6\"}";
    assert_eq!(check_latest("https://x", true, Some(body)), Some("v4.5.6".to_string()));
    assert_eq!(check_latest("https://x", true, Some("{}")), None);
    assert_eq!(check_latest("https://x", true, Some("no json")), None);
    assert_eq!(check_latest("https://x", true, None), None);
}

#[test]
fn a_cache_is_fresh_for_a_day_if_it_is_newer() {
    let cache = Some(new_cache("v4.0.0", now()));
    assert_eq!(cache.as_ref().unwrap().checked_at, "2026-08-14T12:00:00+00:00");
    assert!(!is_cache_stale(&cache, dt("2026-08-15T12:00:00Z"), "3.0.0"));
    assert!(is_cache_stale(&cache, dt("2026-08-15T12:00:01Z"), "3.0.0"));
    assert!(is_cache_stale(&cache, now(), "4.0.0"));
    assert!(is_cache_stale(&None, now(), "3.0.0"));
    assert!(update_available(&cache, "3.0.0"));
    assert!(!update_available(&cache, "4.0.0"));
    assert!(!update_available(&None, "3.0.0"));
    assert!(is_check_stale(None, now(), "nonsense", "3.0.0"));
    let odd = Some(UpdateCheckCache { checked_at: "?".into(), latest_version: "4.0.0".into() });
    assert!(!is_cache_stale(&odd, now(), "3.0.0"));
    assert_eq!(cache_path(Some("/h")), "/h/.treehouse/update-check.json");
    assert_eq!(cache_path(None), "./.treehouse/update-check.json");
}

#[test]
fn a_cache_file_is_read_back() {
    let cache = new_cache("v4.0.0", now());
    let text = write_cache(&cache);
    assert_eq!(
        text,
        "{\"checked_at\":\"2026-08-14T12:00:00+00:00\",\"latest_version\":\"v4.0.0\"}"
    );
    assert_eq!(read_cache(text.as_bytes()), Some(cache));
    assert_eq!(read_cache(b"{\"checked_at\":\"x\"}"), None);
    assert_eq!(read_cache(b"[]"), None);
    assert_eq!(read_cache(b"[\"x\", \"y\"]").unwrap().latest_version, "y");
    assert_eq!(read_cache(b"[\"x\", \"y\", 1]"), None);
    assert_eq!(read_cache(b""), None);
}
