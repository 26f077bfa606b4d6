use treehouse_core::config::{
    expand_env, home_dir, repo_config_with_env, resolve_pool_dir, resolve_pool_dir_with_env,
    resolve_pool_root, resolve_pool_root_with_env, user_config_path_with_env, user_config_with_env,
    ConfigError, ConfigFile, ConfigText, EnvVars, Hooks, TreehouseConfig, VarTable,
};
use treehouse_core::env::{
    default_pool_root, default_update_cache_path, default_user_config_path, EnvErrorKind, InMemoryEnv,
    TreehouseEnv,
};
use treehouse_core::git::short_hash;
use treehouse_core::TreehouseCore;

fn vars(list: &[(&str, &str)]) -> VarTable {
    VarTable {
        vars: list.iter().map(|(k, v)| (k.to_string(), v.to_string())).collect(),
    }
}

fn texts(t: Option<&toml::Value>) -> Vec<String> {
    match t {
        Some(v) => v
            .as_array()
            .unwrap()
            .iter()
            .map(|x| x.as_str().unwrap().to_string())
            .collect(),
        None => Vec::new(),
    }
}

fn parsed(path: &str, text: &str) -> ConfigFile {
    let table: toml::Table = match toml::from_str(text) {
        Ok(t) => t,
        Err(e) => return ConfigFile::Malformed(path.to_string(), e.to_string()),
    };
    let hooks = table.get("hooks");
    ConfigFile::Parsed(TreehouseConfig {
        max_trees: table["max_trees"].as_integer().unwrap() as u32,
        root: table.get("root").map(|r| r.as_str().unwrap().to_string()),
        hooks: Hooks {
            post_create: texts(hooks.and_then(|h| h.get("post_create"))),
            pre_destroy: texts(hooks.and_then(|h| h.get("pre_destroy"))),
        },
        lease_ttl_secs: table.get("lease_ttl_secs").map(|n| n.as_integer().unwrap() as u64),
    })
}

fn file_of(t: ConfigText) -> ConfigFile {
    match t {
        ConfigText::Absent => ConfigFile::Absent,
        ConfigText::Unreadable(p, e) => ConfigFile::Unreadable(p, e),
        ConfigText::Text(p, text) => parsed(&p, &text),
    }
}

fn load_with_env(repo: &str, env: &InMemoryEnv) -> Result<TreehouseConfig, ConfigError> {
    TreehouseConfig::load(
        file_of(repo_config_with_env(repo, env)),
        file_of(user_config_with_env(env)),
    )
}

#[test]
fn default_config_has_16_max_trees() {
    let cfg = TreehouseConfig::default_config();
    assert_eq!(cfg.max_trees, 16);
    assert!(cfg.hooks.is_empty());
}

#[test]
fn repo_config_loads_and_ignores_repo_hooks() {
    let repo = parsed(
        "treehouse.toml",
        "max_trees = 4\n[hooks]\npost_create = [\"./scripts/setup.sh\"]\n",
    );
    let cfg = TreehouseConfig::load(repo, ConfigFile::Absent).unwrap();
    assert_eq!(cfg.max_trees, 4);
    assert!(cfg.hooks.is_empty(), "repo hooks must be ignored");
}

#[test]
fn user_config_hooks_merge_when_repo_config_present() {
    let repo = parsed("treehouse.toml", "max_trees = 4\n");
    let user = parsed(
        "config.toml",
        "max_trees = 99\n[hooks]\npost_create = [\"./user-hook.sh\"]\n",
    );
    let cfg = TreehouseConfig::load(repo, user).unwrap();
    assert_eq!(cfg.max_trees, 4);
    assert_eq!(cfg.hooks.post_create, ["./user-hook.sh"]);
}

#[test]
fn user_config_authoritative_without_repo_config() {
    let user = parsed(
        "config.toml",
        "max_trees = 32\n[hooks]\npre_destroy = [\"teardown.sh\"]\n",
    );
    let cfg = TreehouseConfig::load(ConfigFile::Absent, user).unwrap();
    assert_eq!(cfg.max_trees, 32);
    assert_eq!(cfg.hooks.pre_destroy, ["teardown.sh"]);
}

#[test]
fn load_global_ignores_repo_config() {
    let cfg = TreehouseConfig::load_global(ConfigFile::Absent).unwrap();
    assert_eq!(cfg.max_trees, 16);
}

#[test]
fn resolve_pool_dir_empty_root() {
    let hash = short_hash("https://github.com/x/y.git");
    let pool = resolve_pool_dir(
        "/work/myrepo",
        None,
        Some("https://github.com/x/y.git"),
        Some("/home/fake"),
        &vars(&[]),
    )
    .unwrap();
    assert_eq!(pool, format!("/home/fake/.treehouse/myrepo-{hash}"));
}

#[test]
fn relative_root_nests_under_repo() {
    let repo = "/work/myrepo";
    let root = resolve_pool_root(repo, Some("worktrees"), Some("/h"), &vars(&[])).unwrap();
    assert_eq!(root, "/work/myrepo/worktrees/.treehouse");
    let dot = resolve_pool_root(repo, Some("."), Some("/h"), &vars(&[])).unwrap();
    assert_eq!(
        std::path::Path::new(&dot),
        std::path::Path::new("/work/myrepo/.treehouse")
    );
}

#[test]
fn absolute_root_nests_under_given_root() {
    let root = resolve_pool_root("/work/myrepo", Some("/abs/root"), None, &vars(&[])).unwrap();
    assert_eq!(root, "/abs/root/.treehouse");
}

#[test]
fn relative_root_without_repo_fails() {
    let err = resolve_pool_root("", Some("worktrees"), None, &vars(&[])).unwrap_err();
    assert!(err.message().contains("requires a repository"), "got {}", err.message());
    assert_eq!(
        err.message(),
        "invalid config: relative treehouse root \"worktrees\" requires a repository"
    );
}

#[test]
fn env_expansion_in_root() {
    let table = vars(&[("TESTVAR", "/tmp/fake-home")]);
    let root = resolve_pool_root("/work/myrepo", Some("$TESTVAR/trees"), None, &table).unwrap();
    assert_eq!(root, "/tmp/fake-home/trees/.treehouse");
}

#[test]
fn lease_ttl_is_additive() {
    let repo = parsed("treehouse.toml", "max_trees = 8\nlease_ttl_secs = 3600\n");
    let cfg = TreehouseConfig::load(repo, ConfigFile::Absent).unwrap();
    assert_eq!(cfg.max_trees, 8);
    assert_eq!(cfg.lease_ttl_secs, Some(3600));
}

#[test]
fn resolve_pool_root_with_env_empty_root() {
    let env = InMemoryEnv::new("/custom/pools".to_string());
    let root = resolve_pool_root_with_env("/work/repo", None, &env).unwrap();
    assert_eq!(root, "/custom/pools");
}

#[test]
fn resolve_pool_root_with_env_absolute_root() {
    let env = InMemoryEnv::new("/custom".to_string());
    let root = resolve_pool_root_with_env("/work/repo", Some("/abs/root"), &env).unwrap();
    assert_eq!(root, "/abs/root/.treehouse");
}

#[test]
fn resolve_pool_root_with_env_relative_root() {
    let env = InMemoryEnv::new("/custom".to_string());
    let root = resolve_pool_root_with_env("/work/myrepo", Some("worktrees"), &env).unwrap();
    assert_eq!(root, "/work/myrepo/worktrees/.treehouse");
}

#[test]
fn resolve_pool_dir_with_env_uses_env_root() {
    let env = InMemoryEnv::new("/custom/pools".to_string());
    let hash = short_hash("https://github.com/x/y.git");
    let pool = resolve_pool_dir_with_env(
        "/work/myrepo",
        None,
        Some("https://github.com/x/y.git"),
        &env,
    )
    .unwrap();
    assert_eq!(pool, format!("/custom/pools/myrepo-{hash}"));
}

#[test]
fn user_config_path_with_env_delegates_to_env() {
    let env = InMemoryEnv::new("/test".to_string());
    let path = user_config_path_with_env(&env).unwrap();
    assert_eq!(path, "/test/config/config.toml");
}

#[test]
fn load_with_env_reads_repo_config() {
    let mut env = InMemoryEnv::new("/test".to_string());
    env.seed_file("/test/repo/treehouse.toml", b"max_trees = 8\n");
    let cfg = load_with_env("/test/repo", &env).unwrap();
    assert_eq!(cfg.max_trees, 8);
}

#[test]
fn load_with_env_merge_rules() {
    let mut env = InMemoryEnv::new("/test".to_string());
    env.seed_file("/test/repo/treehouse.toml", b"max_trees = 4\n");
    env.seed_file(
        "/test/config/config.toml",
        b"max_trees = 99\n[hooks]\npost_create = [\"./setup.sh\"]\n",
    );
    let cfg = load_with_env("/test/repo", &env).unwrap();
    assert_eq!(cfg.max_trees, 4);
    assert_eq!(cfg.hooks.post_create, ["./setup.sh"]);
}

#[test]
fn load_with_env_defaults_without_config() {
    let env = InMemoryEnv::new("/test".to_string());
    let cfg = load_with_env("/test/empty", &env).unwrap();
    assert_eq!(cfg.max_trees, 16);
    assert!(cfg.hooks.is_empty());
}

#[test]
fn in_memory_env_read_write_roundtrip() {
    let mut env = InMemoryEnv::new("/test".to_string());
    env.seed_file("/test/file.txt", b"hello");
    assert_eq!(env.read_file("/test/file.txt").unwrap(), "hello");
    assert!(env.path_exists("/test/file.txt"));
    assert!(!env.path_exists("/test/missing.txt"));
}

#[test]
fn in_memory_env_list_dir() {
    let mut env = InMemoryEnv::new("/test".to_string());
    env.seed_file("/test/a.txt", b"a");
    env.seed_file("/test/b.txt", b"b");
    let entries = env.list_dir("/test").unwrap();
    assert_eq!(entries.len(), 2);
}

#[test]
fn in_memory_env_env_var() {
    let env = InMemoryEnv::new("/test".to_string()).with_env("HOME", "/fake/home");
    assert_eq!(env.env_var("HOME"), Some("/fake/home".to_string()));
    assert_eq!(env.env_var("MISSING"), None);
    assert_eq!(env.env_var_os("HOME"), Some("/fake/home".to_string()));
    assert_eq!(env.env_var_os("MISSING"), None);
}

#[test]
fn default_env_pool_root_matches_current() {
    if let Some(root) = default_pool_root(Some("/home/someone")) {
        assert!(std::path::Path::new(&root).ends_with(".treehouse"));
        assert_eq!(root, "/home/someone/.treehouse");
    } else {
        panic!("a home has a pool root");
    }
    assert_eq!(default_pool_root(None), None);
}

#[test]
fn treehouse_core_for_test_creates_working_instance() {
    let core = TreehouseCore::for_test("/test/pools".to_string());
    assert_eq!(core.pool_root(), Some("/test/pools".to_string()));
}

#[test]
fn treehouse_core_with_env_uses_injected_config() {
    let env = InMemoryEnv::new("/test".to_string());
    let config = TreehouseConfig { max_trees: 4, ..TreehouseConfig::default_config() };
    let core = TreehouseCore::with_env(env, config);
    assert_eq!(core.config.max_trees, 4);
}

#[test]
fn core_opens_a_pool_in_its_environment() {
    let core = TreehouseCore::for_test("/test/pools".to_string());
    let pool = core.open_pool("/work/app", Some("https://example.com/app.git")).unwrap();
    let hash = short_hash("https://example.com/app.git");
    assert_eq!(pool.pool_dir(), format!("/test/pools/app-{hash}"));
    assert_eq!(pool.root, "/work/app");
    assert!(pool.env().path_exists(&format!("/test/pools/app-{hash}")));
}

#[test]
fn core_takes_its_settings_from_two_files() {
    let env = InMemoryEnv::new("/test".to_string());
    let repo = parsed("treehouse.toml", "max_trees = 8\n");
    let core = TreehouseCore::with_env_and_config(repo, ConfigFile::Absent, env).unwrap();
    assert_eq!(core.config.max_trees, 8);
    let env = InMemoryEnv::new("/test".to_string());
    let broken = parsed("treehouse.toml", "max_trees = = 3");
    assert!(matches!(
        TreehouseCore::with_env_and_config(broken, ConfigFile::Absent, env),
        Err(ConfigError::Toml(_, _))
    ));
}

#[test]
fn unreadable_and_malformed_configs_are_errors() {
    let io = TreehouseConfig::load(
        ConfigFile::Unreadable("/r/treehouse.toml".into(), "denied".into()),
        ConfigFile::Absent,
    )
    .unwrap_err();
    assert_eq!(io.message(), "failed to read config file /r/treehouse.toml: denied");
    let bad = TreehouseConfig::load(
        ConfigFile::Absent,
        ConfigFile::Malformed("/u/config.toml".into(), "expected value".into()),
    )
    .unwrap_err();
    assert_eq!(bad.message(), "failed to parse config file /u/config.toml: expected value");
    assert!(TreehouseConfig::load_global(ConfigFile::Malformed("c".into(), "e".into())).is_err());
    assert!(TreehouseConfig::load_global(ConfigFile::Unreadable("c".into(), "e".into())).is_err());
}

#[test]
fn no_home_is_an_error() {
    let err = resolve_pool_root("/r", None, None, &vars(&[])).unwrap_err();
    assert_eq!(err, ConfigError::Invalid("home dir not found".into(), "cannot resolve $HOME".into()));
    let err = resolve_pool_dir("/r", Some(""), None, None, &vars(&[])).unwrap_err();
    assert_eq!(err.message(), "invalid config: home dir not found");
}

#[test]
fn variables_are_expanded() {
    let t = vars(&[("A", "one"), ("B_2", "two"), ("A", "later")]);
    assert_eq!(expand_env("x/$A/${B_2}y", &t), "x/one/twoy");
    assert_eq!(expand_env("plain", &t), "plain");
    assert_eq!(expand_env("", &t), "");
}

#[test]
fn home_comes_from_one_of_two_variables() {
    assert_eq!(home_dir(&vars(&[("HOME", "/h"), ("USERPROFILE", "/u")])), Some("/h".to_string()));
    assert_eq!(home_dir(&vars(&[("USERPROFILE", "/u")])), Some("/u".to_string()));
    assert_eq!(home_dir(&vars(&[])), None);
}

#[test]
fn variables_of_an_environment_are_expanded() {
    let env = InMemoryEnv::new("/p".to_string()).with_env("ROOT", "/data");
    assert_eq!(expand_env("${ROOT}/x", &EnvVars { env: &env }), "/data/x");
    let root = resolve_pool_root_with_env("/r", Some("$ROOT"), &env).unwrap();
    assert_eq!(root, "/data/.treehouse");
}

#[test]
fn local_repositories_are_hashed_by_path() {
    let env = InMemoryEnv::new("/p".to_string());
    let dir = resolve_pool_dir_with_env("/work/app", None, None, &env).unwrap();
    assert_eq!(dir, format!("/p/app-{}", short_hash("/work/app")));
    let same = resolve_pool_dir_with_env("/work/app", None, Some(""), &env).unwrap();
    assert_eq!(same, dir);
}

#[test]
fn default_places_lie_below_home() {
    assert_eq!(
        default_user_config_path(Some("/h")),
        Some("/h/.config/treehouse/config.toml".to_string())
    );
    assert_eq!(
        default_update_cache_path(Some("/h")),
        Some("/h/.treehouse/update-check.json".to_string())
    );
    assert_eq!(default_user_config_path(None), None);
    assert_eq!(default_update_cache_path(None), None);
}

#[test]
fn what_is_written_is_read_back() {
    let mut env = InMemoryEnv::new("/test".to_string());
    env.write_file("/test/x", b"one").unwrap();
    env.write_file("/test/x", b"two").unwrap();
    assert_eq!(env.read_bytes("/test/x").unwrap(), b"two");
    assert_eq!(env.file_meta("/test/x").unwrap().size, 3);
    assert_eq!(env.read_file("/test/none").unwrap_err().kind, EnvErrorKind::NotFound);
    assert_eq!(env.read_bytes("/test/none").unwrap_err().kind, EnvErrorKind::NotFound);
    assert_eq!(env.file_meta("/test/none").unwrap_err().kind, EnvErrorKind::NotFound);
    env.ensure_dir("/test/d/e").unwrap();
    assert!(env.path_exists("/test/d/e"));
    assert_eq!(env.cwd(), None);
}

#[test]
fn bytes_that_are_no_text_are_read_with_replacements() {
    let mut env = InMemoryEnv::new("/test".to_string());
    env.seed_file("/test/x", &[104, 105, 255]);
    assert_eq!(env.read_file("/test/x").unwrap(), "hi\u{fffd}");
    assert_eq!(env.read_bytes("/test/x").unwrap(), vec![104, 105, 255]);
}
