//! Pool of reusable git worktrees: the decisions, the state and the texts.

use vstd::prelude::*;

use crate::config::{
    is_default, loads, same_safe_settings, ConfigError, ConfigFile, TreehouseConfig,
};
use crate::env::{kept, InMemoryEnv, TreehouseEnv};
use crate::lock::DEFAULT_LOCK_TIMEOUT_SECS;
use crate::pool::{pool_dir_in, OpenOptions, Pool, PoolError};
use crate::text::{opt_str_view, opt_view};
use crate::time::Span;

pub mod cli;
pub mod config;
pub mod copies;
pub mod destroy;
pub mod discovery;
pub mod doctor;
pub mod env;
pub mod format;
pub mod gc;
pub mod git;
pub mod hooks;
pub mod json;
pub mod lease;
pub mod lock;
pub mod path;
pub mod pool;
pub mod process;
pub mod prune;
pub mod reclaim;
pub mod reservation;
pub mod result;
pub mod run;
pub mod state;
pub mod state_file;
pub mod text;
pub mod time;
pub mod updater;
pub mod worktree;

verus! {

/// Version of the library.
pub const VERSION: &'static str = "3.0.0";

/// The entry point for those who embed the library: an environment and the
/// settings, from which pools are opened.
pub struct TreehouseCore<E> {
    pub env: E,
    pub config: TreehouseConfig,
}

impl<E: TreehouseEnv> TreehouseCore<E> {
    /// With an environment and settings.
    pub fn with_env(env: E, config: TreehouseConfig) -> (r: TreehouseCore<E>)
        ensures
            r.env == env,
            r.config == config,
    {
        TreehouseCore { env, config }
    }

    /// With an environment and the settings that two configuration files come
    /// to: that of a repository and that of the user.
    pub fn with_env_and_config(repo: ConfigFile, user: ConfigFile, env: E) -> (r: Result<
        TreehouseCore<E>,
        ConfigError,
    >)
        ensures
            match r {
                Ok(core) => core.env == env && loads(
                    repo,
                    user,
                    Ok::<TreehouseConfig, ConfigError>(core.config),
                ),
                Err(e) => loads(repo, user, Err::<TreehouseConfig, ConfigError>(e)),
            },
    {
        match TreehouseConfig::load(repo, user) {
            Ok(config) => Ok(TreehouseCore { env, config }),
            Err(e) => Err(e),
        }
    }

    /// Where the environment keeps pools.
    pub fn pool_root(&self) -> (r: Option<String>)
        ensures
            opt_view(r) == self.env.root_view(),
    {
        self.env.pool_root()
    }

    /// Opens the pool of a repository.
    pub fn open_pool(self, repo_root: &str, remote_url: Option<&str>) -> (r: Result<
        Pool<E>,
        PoolError,
    >)
        ensures
            match pool_dir_in(
                repo_root@,
                opt_view(self.config.root),
                opt_str_view(remote_url),
                &self.env,
            ) {
                Err(e) => r matches Err(
                    PoolError::Config(ConfigError::Invalid(what, detail)),
                ) && what@ == e.what && detail@ == e.detail,
                Ok(dir) => match r {
                    Ok(p) => p.root@ == repo_root@ && p.dir@ == dir && same_safe_settings(
                        p.config,
                        self.config,
                    ) && p.config.hooks.same(self.config.hooks) && p.lock_timeout == (Span {
                        secs: DEFAULT_LOCK_TIMEOUT_SECS,
                        nanos: 0,
                    }) && p.env.present_view(dir) && kept(&self.env, &p.env),
                    Err(e) => e matches PoolError::Io(what, _) && what@ == "creating pool dir "@
                        + dir,
                },
            },
    {
        let mut opts = OpenOptions::default();
        opts.config = self.config;
        Pool::open_with_env(repo_root, remote_url, &opts, self.env)
    }
}

impl TreehouseCore<InMemoryEnv> {
    /// With an environment in memory and the default settings.
    pub fn for_test(pool_root: String) -> (r: TreehouseCore<InMemoryEnv>)
        ensures
            r.env.root_view() == Some(pool_root@),
            is_default(r.config),
    {
        TreehouseCore { env: InMemoryEnv::new(pool_root), config: TreehouseConfig::default() }
    }
}

} // verus!
