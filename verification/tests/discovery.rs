use treehouse_core::config::{ConfigFile, TreehouseConfig, VarTable};
use treehouse_core::discovery::{
    discover_pools, discover_pools_with_env, load_user_config_for_discovery, merge_gc_results,
    merge_prune_results, skipped_pool_line, sort_paths, user_pool_root, user_pool_root_with_config,
    user_pool_root_with_config_and_env, user_pool_root_with_env, PoolProbe,
};
use treehouse_core::env::InMemoryEnv;
use treehouse_core::gc::{CleanupError, GcResult, GcSkipped, GcWorktree};
use treehouse_core::prune::{PruneResult, PruneSkipped, PruneWorktree};
use treehouse_core::state::State;
use treehouse_core::state_file::state_bytes;

fn gc_worktree(path: &str, bytes: u64) -> GcWorktree {
    GcWorktree {
        name: "1".into(),
        path: path.into(),
        bytes,
        tag: "stale".into(),
        warning: String::new(),
    }
}

fn pool_error(path: &str, phase: &str, detail: &str) -> CleanupError {
    CleanupError {
        name: "pool".into(),
        path: path.into(),
        phase: phase.into(),
        detail: detail.into(),
    }
}

#[test]
fn discovers_only_state_file_dirs() {
    let probes = vec![
        PoolProbe {
            dir: "/p/myrepo-abc123".into(),
            state_exists: true,
            state: Ok(state_bytes(&State::default())),
        },
        PoolProbe { dir: "/p/not-a-pool".into(), state_exists: false, state: Ok(vec![]) },
    ];
    let result = discover_pools(&probes);
    assert_eq!(result.pools.len(), 1, "only the state-file dir is a pool");
    assert_eq!(result.pools[0].name, "myrepo-abc123");
    assert_eq!(
        result.skipped,
        vec![("/p/not-a-pool".to_string(), "no treehouse-state.json".to_string())]
    );
}

#[test]
fn user_pool_root_with_env_returns_env_root() {
    let env = InMemoryEnv::new("/custom/pools".to_string());
    assert_eq!(user_pool_root_with_env(&env), Some("/custom/pools".to_string()));
}

#[test]
fn user_pool_root_with_config_and_env_empty_root() {
    let env = InMemoryEnv::new("/custom/pools".to_string());
    let config = TreehouseConfig::default_config();
    assert_eq!(
        user_pool_root_with_config_and_env(&config, &env),
        Some("/custom/pools".to_string())
    );
}

#[test]
fn user_pool_root_with_config_and_env_absolute_root() {
    let env = InMemoryEnv::new("/custom".to_string());
    let config = TreehouseConfig {
        root: Some("/abs/root".to_string()),
        ..TreehouseConfig::default_config()
    };
    assert_eq!(
        user_pool_root_with_config_and_env(&config, &env),
        Some("/abs/root/.treehouse".to_string())
    );
}

#[test]
fn discover_pools_with_env_finds_state_files() {
    let mut env = InMemoryEnv::new("/pools".to_string());
    let pool_dir = "/pools/myrepo-abc123";
    env.seed_file(&State::state_file_path(pool_dir), &state_bytes(&State::default()));
    let result = discover_pools_with_env("/pools", &env);
    assert_eq!(result.pools.len(), 1);
    assert_eq!(result.pools[0].name, "myrepo-abc123");
    assert_eq!(result.pools[0].dir, pool_dir);
}

#[test]
fn discover_pools_with_env_skips_non_pools() {
    let mut env = InMemoryEnv::new("/pools".to_string());
    env.seed_file("/pools/not-a-pool/random.txt", b"hello");
    let result = discover_pools_with_env("/pools", &env);
    assert!(result.pools.is_empty());
    assert!(!result.skipped.is_empty());
}

#[test]
fn pools_come_in_the_order_of_their_paths() {
    let mut env = InMemoryEnv::new("/pools".to_string());
    for name in ["zeta", "alpha", "mid"] {
        let dir = format!("/pools/{name}");
        env.seed_file(&State::state_file_path(&dir), b"{\"worktrees\":[]}");
    }
    env.seed_file("/pools/broken/treehouse-state.json", b"not json");
    let result = discover_pools_with_env("/pools", &env);
    let names: Vec<&str> = result.pools.iter().map(|p| p.name.as_str()).collect();
    assert_eq!(names, ["alpha", "mid", "zeta"]);
    assert_eq!(
        result.skipped,
        vec![("/pools/broken".to_string(), "state file does not parse".to_string())]
    );
}

#[test]
fn unreadable_state_files_are_skipped_with_the_reason() {
    let probes = vec![
        PoolProbe { dir: "/p/a".into(), state_exists: true, state: Err("denied".into()) },
        PoolProbe { dir: "/p/b".into(), state_exists: true, state: Ok(b"[3]".to_vec()) },
    ];
    let result = discover_pools(&probes);
    assert!(result.pools.is_empty());
    assert_eq!(result.skipped[0].1, "cannot read state: denied");
    assert_eq!(result.skipped[1].1, "state file does not parse");
}

#[test]
fn a_state_file_that_is_no_text_is_told_by_what_reading_gives() {
    let mut env = InMemoryEnv::new("/pools".to_string());
    env.seed_file("/pools/a/treehouse-state.json", &[255, 254]);
    let result = discover_pools_with_env("/pools", &env);
    assert_eq!(
        result.skipped,
        vec![("/pools/a".to_string(), "state file does not parse".to_string())]
    );
}

#[test]
fn a_root_that_is_missing_has_no_pools() {
    let env = InMemoryEnv::new("/pools".to_string());
    let result = discover_pools_with_env("/nowhere", &env);
    assert!(result.pools.is_empty());
    assert!(result.skipped.is_empty());
}

#[test]
fn roots_without_an_environment() {
    let none = VarTable { vars: vec![] };
    assert_eq!(user_pool_root(Some("/h")), Some("/h/.treehouse".to_string()));
    assert_eq!(user_pool_root(None), None);
    let mut config = TreehouseConfig::default_config();
    assert_eq!(
        user_pool_root_with_config(&config, Some("/h"), &none),
        Some("/h/.treehouse".to_string())
    );
    config.root = Some("/abs".to_string());
    assert_eq!(
        user_pool_root_with_config(&config, Some("/h"), &none),
        Some("/abs/.treehouse".to_string())
    );
    config.root = Some("relative".to_string());
    assert_eq!(user_pool_root_with_config(&config, Some("/h"), &none), None);
}

#[test]
fn discovery_loads_the_user_config() {
    let cfg = TreehouseConfig { max_trees: 3, ..TreehouseConfig::default_config() };
    assert_eq!(
        load_user_config_for_discovery(ConfigFile::Parsed(cfg)).unwrap().max_trees,
        3
    );
    assert_eq!(load_user_config_for_discovery(ConfigFile::Absent).unwrap().max_trees, 16);
    assert!(load_user_config_for_discovery(ConfigFile::Malformed("p".into(), "e".into())).is_err());
}

#[test]
fn paths_are_sorted_by_component() {
    let v: Vec<String> = ["/a/b", "/a-x", "/a", "/a/a"].iter().map(|s| s.to_string()).collect();
    assert_eq!(sort_paths(&v), ["/a", "/a/a", "/a/b", "/a-x"]);
    assert!(sort_paths(&vec![]).is_empty());
}

#[test]
fn skipped_pools_are_reported() {
    assert_eq!(skipped_pool_line("/p/x", None), "🌳 skipping pool /p/x: cannot open");
    assert_eq!(skipped_pool_line("/p/x", Some("denied")), "🌳 skipping pool /p/x: denied");
}

#[test]
fn merge_gc_results_aggregates_errors_across_pools() {
    let results = vec![
        (
            "/pools/pool-a".to_string(),
            GcResult {
                dry_run: false,
                reclaimed: vec![gc_worktree("/pools/pool-a/1/repo", 1000)],
                freed_bytes: 1000,
                ..Default::default()
            },
        ),
        (
            "/pools/pool-b".to_string(),
            GcResult {
                dry_run: false,
                errors: vec![pool_error("/pools/pool-b", "pool_gc", "state lock timed out")],
                ..Default::default()
            },
        ),
        (
            "/pools/pool-c".to_string(),
            GcResult {
                dry_run: false,
                reclaimed: vec![gc_worktree("/pools/pool-c/1/repo", 2000)],
                freed_bytes: 2000,
                ..Default::default()
            },
        ),
    ];
    let merged = merge_gc_results(results);
    assert_eq!(merged.reclaimed.len(), 2);
    assert_eq!(merged.freed_bytes, 3000);
    assert_eq!(merged.errors.len(), 1);
    assert_eq!(merged.errors[0].phase, "pool_gc");
    assert_eq!(merged.errors[0].name, "pool");
    assert!(merged.errors[0].detail.contains("state lock timed out"));
}

#[test]
fn merge_prune_results_aggregates_errors_across_pools() {
    let results = vec![
        (
            "/pools/pool-a".to_string(),
            PruneResult {
                dry_run: false,
                pruned: vec![PruneWorktree {
                    name: "1".into(),
                    path: "/pools/pool-a/1/repo".into(),
                    bytes: 500,
                    orphaned: false,
                    warning: String::new(),
                }],
                freed_bytes: 500,
                ..Default::default()
            },
        ),
        (
            "/pools/pool-b".to_string(),
            PruneResult {
                dry_run: false,
                errors: vec![pool_error("/pools/pool-b", "pool_prune", "corrupt state file")],
                ..Default::default()
            },
        ),
    ];
    let merged = merge_prune_results(results);
    assert_eq!(merged.pruned.len(), 1);
    assert_eq!(merged.freed_bytes, 500);
    assert_eq!(merged.errors.len(), 1);
    assert_eq!(merged.errors[0].phase, "pool_prune");
}

#[test]
fn merge_gc_results_idempotent() {
    let results = vec![
        (
            "/pools/a".to_string(),
            GcResult {
                dry_run: false,
                reclaimed: vec![gc_worktree("/pools/a/1/r", 100)],
                freed_bytes: 100,
                ..Default::default()
            },
        ),
        (
            "/pools/b".to_string(),
            GcResult {
                dry_run: false,
                errors: vec![pool_error("/pools/b", "pool_gc", "lock timeout")],
                ..Default::default()
            },
        ),
    ];
    let first = merge_gc_results(results.clone());
    let second = merge_gc_results(results);
    assert_eq!(first.reclaimed.len(), second.reclaimed.len());
    assert_eq!(first.errors.len(), second.errors.len());
    assert_eq!(first.freed_bytes, second.freed_bytes);
    assert_eq!(first, second);
}

#[test]
fn merged_candidates_name_their_pool() {
    let gc = merge_gc_results(vec![
        (
            "/a".to_string(),
            GcResult {
                dry_run: true,
                candidates: vec![gc_worktree("/a/1/r", 7)],
                skipped: vec![GcSkipped {
                    name: "2".into(),
                    path: "/a/2/r".into(),
                    category: "in use".into(),
                    reason: "busy".into(),
                }],
                ..Default::default()
            },
        ),
        (
            "/b".to_string(),
            GcResult { dry_run: true, candidates: vec![gc_worktree("/b/1/r", 8)], ..Default::default() },
        ),
    ]);
    assert!(gc.dry_run);
    assert_eq!(gc.candidates[0].name, "/a/1");
    assert_eq!(gc.candidates[1].name, "/b/1");
    assert_eq!(gc.candidates[1].path, "/b/1/r");
    assert_eq!(gc.reclaimable_bytes, 15);
    assert_eq!(gc.skipped.len(), 1);
    let prune = merge_prune_results(vec![(
        "/a".to_string(),
        PruneResult {
            dry_run: true,
            candidates: vec![PruneWorktree {
                name: "1".into(),
                path: "/a/1/r".into(),
                bytes: 5,
                orphaned: true,
                warning: "content could not be verified".into(),
            }],
            skipped: vec![PruneSkipped {
                name: "2".into(),
                path: "/a/2/r".into(),
                category: "unmerged".into(),
                reason: "x".into(),
                detail: "y".into(),
            }],
            ..Default::default()
        },
    )]);
    assert_eq!(prune.candidates[0].name, "/a/1");
    assert!(prune.candidates[0].orphaned);
    assert_eq!(prune.reclaimable_bytes, 5);
    assert_eq!(prune.freed_bytes, 0);
    assert_eq!(prune.skipped[0].detail, "y");
}

#[test]
fn merging_nothing_is_a_dry_run() {
    let gc = merge_gc_results(vec![]);
    assert!(gc.dry_run);
    assert_eq!(gc.reclaimable_bytes, 0);
    assert!(merge_prune_results(vec![]).dry_run);
}
