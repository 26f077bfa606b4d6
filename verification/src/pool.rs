//! The pool: which worktree is handed out, how it is returned, and what is
//! shown of it.
//!
//! A reservation is written into the state before anything outside is done to
//! a worktree, and looked up again afterwards. Git, hooks and processes are
//! the caller's part; no lock is held while they run.

use vstd::prelude::*;
use vstd::string::*;

use crate::config::{
    env_root, pool_dir_spec, pool_name, pool_root_spec, resolve_pool_dir_with_env, ConfigError,
    InvalidView, TreehouseConfig,
};
use crate::env::{kept, TreehouseEnv};
use crate::git::GitError;
use crate::lease::{mark_acquired_lease_as, stamped, Lease, LeaseInfo, LeaseView};
use crate::path::{
    file_name, file_name_spec, inside, is_inside, join, join_spec, parent, parent_spec,
};
use crate::process::{
    info_views, running_in, started_spec, ProcessInfo, ProcessInfoView, ProcessRecord, ProcessTable,
};
use crate::state::{
    blank_entry, clear_lease, lemma_entry_views_update, new_lease_id, owned, owner_alive, EntryView,
    State, StateError, WorktreeEntry,
};
use crate::text::{
    all_hex, decimal, decimal_text, lemma_decimal_value, natural, opt_str_view, opt_view, parse_u64,
    same_text,
};
use crate::time::{zero_time, Span, Timestamp, MAX_SECS, NANOS};

verus! {

/// Options for opening a pool.
#[derive(Clone, Debug, PartialEq, Eq)]
pub struct OpenOptions {
    pub config: TreehouseConfig,
    pub lock_timeout: Span,
}

impl Default for OpenOptions {
    fn default() -> (r: OpenOptions)
        ensures
            crate::config::is_default(r.config),
            r.lock_timeout == (Span { secs: crate::lock::DEFAULT_LOCK_TIMEOUT_SECS, nanos: 0 }),
    {
        OpenOptions {
            config: TreehouseConfig::default_config(),
            lock_timeout: Span::from_secs(crate::lock::DEFAULT_LOCK_TIMEOUT_SECS),
        }
    }
}

/// Options for acquiring a worktree.
#[derive(Clone, Debug, PartialEq, Eq)]
pub struct AcquireOptions {
    /// The branch to reset to, where it is not the default branch.
    pub branch: Option<String>,
    /// Lease the worktree, rather than own it by a process.
    pub lease: Option<LeaseAcquireOptions>,
}

impl Default for AcquireOptions {
    fn default() -> (r: AcquireOptions)
        ensures
            r.branch is None,
            r.lease is None,
    {
        AcquireOptions { branch: None, lease: None }
    }
}

/// Options for a lease.
#[derive(Clone, Debug, PartialEq, Eq)]
pub struct LeaseAcquireOptions {
    pub holder: String,
    /// How long the lease lasts; none for a permanent lease.
    pub ttl: Option<Span>,
}

/// A worktree that was acquired.
#[derive(Clone, Debug, PartialEq, Eq)]
pub struct Acquired {
    pub name: String,
    pub path: String,
    pub branch: String,
    pub lease: Option<Lease>,
}

/// The states of a worktree, as they are shown.
pub const STATUS_AVAILABLE: &'static str = "available";

pub const STATUS_IN_USE: &'static str = "in-use";

pub const STATUS_DIRTY: &'static str = "dirty";

pub const STATUS_LEASED: &'static str = "leased";

pub const STATUS_HERE: &'static str = "you're here";

/// What is shown of one worktree.
#[derive(Clone, Debug, PartialEq, Eq)]
pub struct WorktreeStatus {
    pub name: String,
    pub path: String,
    pub status: String,
    pub processes: Vec<ProcessInfo>,
    pub lease_id: String,
    pub lease_holder: String,
    pub leased_at: Timestamp,
    /// The end of the lease: zero without a lease and for a permanent one.
    pub expires_at: Timestamp,
    /// The lease has passed its end.
    pub stale: bool,
}

/// Errors from pool operations.
#[derive(Clone, Debug, PartialEq, Eq)]
pub enum PoolError {
    PoolFull { count: u32, max: u32 },
    BeingDestroyed(String),
    NotFound(String),
    LeasePrecondition { path: String, reason: String },
    Lock(String),
    State(StateError),
    Config(ConfigError),
    Git(GitError),
    Io(String, String),
}

impl PoolError {
    /// The message of the error.
    pub open spec fn message_spec(self) -> Seq<char> {
        match self {
            PoolError::PoolFull { count, max } => "all "@ + decimal(count as nat)
                + " worktrees are in use or dirty (max_trees = "@ + decimal(max as nat)
                + "). Run 'treehouse status' to see details, or increase max_trees in treehouse.toml"@,
            PoolError::BeingDestroyed(path) => "worktree "@ + path@ + " is being destroyed"@,
            PoolError::NotFound(path) => "worktree "@ + path@ + " is not managed by treehouse"@,
            PoolError::LeasePrecondition { path, reason } => "lease precondition failed: "@ + path@
                + ": "@ + reason@,
            PoolError::Lock(e) => "pool lock: "@ + e@,
            PoolError::State(e) => "state: "@ + e.message_spec(),
            PoolError::Config(e) => "config: "@ + e.message_spec(),
            PoolError::Git(e) => "git: "@ + e.message_spec(),
            PoolError::Io(what, _) => "io: "@ + what@,
        }
    }

    /// The message of the error.
    pub fn message(&self) -> (r: String)
        ensures
            r@ == self.message_spec(),
    {
        match self {
            PoolError::PoolFull { count, max } => {
                let mut s = "all ".to_owned();
                s.append(&decimal_text(*count as u64));
                s.append(" worktrees are in use or dirty (max_trees = ");
                s.append(&decimal_text(*max as u64));
                s.append(
                    "). Run 'treehouse status' to see details, or increase max_trees in treehouse.toml",
                );
                s
            },
            PoolError::BeingDestroyed(path) => {
                let mut s = "worktree ".to_owned();
                s.append(path);
                s.append(" is being destroyed");
                s
            },
            PoolError::NotFound(path) => {
                let mut s = "worktree ".to_owned();
                s.append(path);
                s.append(" is not managed by treehouse");
                s
            },
            PoolError::LeasePrecondition { path, reason } => {
                let mut s = "lease precondition failed: ".to_owned();
                s.append(path);
                s.append(": ");
                s.append(reason);
                s
            },
            PoolError::Lock(e) => {
                let mut s = "pool lock: ".to_owned();
                s.append(e);
                s
            },
            PoolError::State(e) => {
                let mut s = "state: ".to_owned();
                s.append(&e.message());
                s
            },
            PoolError::Config(e) => {
                let mut s = "config: ".to_owned();
                s.append(&e.message());
                s
            },
            PoolError::Git(e) => {
                let mut s = "git: ".to_owned();
                s.append(&e.text());
                s
            },
            PoolError::Io(what, _) => {
                let mut s = "io: ".to_owned();
                s.append(what);
                s
            },
        }
    }
}

// ---------- opening ----------

/// An opened pool: the repository, the directory of the pool, the settings.
pub struct Pool<E> {
    pub root: String,
    pub dir: String,
    pub config: TreehouseConfig,
    pub lock_timeout: Span,
    pub env: E,
}

/// The pool has the settings of the options.
pub open spec fn opened_with<E>(p: Pool<E>, opts: OpenOptions) -> bool {
    crate::config::same_safe_settings(p.config, opts.config) && p.config.hooks.same(
        opts.config.hooks,
    ) && p.lock_timeout == opts.lock_timeout
}

/// The directory of the pool of a repository in an environment.
pub open spec fn pool_dir_in<E: TreehouseEnv>(
    repo_root: Seq<char>,
    root: Option<Seq<char>>,
    remote: Option<Seq<char>>,
    env: &E,
) -> Result<Seq<char>, InvalidView> {
    pool_dir_spec(
        pool_root_spec(
            repo_root,
            root,
            env_root(env.root_view()),
            |name: Seq<char>| env.var_view(name),
        ),
        pool_name(repo_root, remote),
    )
}

impl<E: TreehouseEnv> Pool<E> {
    /// Opens the pool of a repository, making its directory. The directory is
    /// told by the environment and the settings. The pool keeps the environment
    /// as it was.
    pub fn open_with_env(
        repo_root: &str,
        remote_url: Option<&str>,
        opts: &OpenOptions,
        env: E,
    ) -> (r: Result<Pool<E>, PoolError>)
        ensures
            match pool_dir_in(
                repo_root@,
                opt_view(opts.config.root),
                opt_str_view(remote_url),
                &env,
            ) {
                Err(e) => r matches Err(
                    PoolError::Config(ConfigError::Invalid(what, detail)),
                ) && what@ == e.what && detail@ == e.detail,
                Ok(dir) => match r {
                    Ok(p) => p.root@ == repo_root@ && p.dir@ == dir && opened_with(p, *opts)
                        && p.env.present_view(dir) && kept(&env, &p.env),
                    Err(e) => e matches PoolError::Io(what, _) && what@ == "creating pool dir "@
                        + dir,
                },
            },
    {
        let root: Option<&str> = match &opts.config.root {
            Some(t) => Some(t.as_str()),
            None => None,
        };
        let dir = match resolve_pool_dir_with_env(repo_root, root, remote_url, &env) {
            Ok(dir) => dir,
            Err(e) => return Err(PoolError::Config(e)),
        };
        let mut env = env;
        match env.ensure_dir(&dir) {
            Ok(_) => {},
            Err(e) => {
                let mut what = "creating pool dir ".to_owned();
                what.append(&dir);
                return Err(PoolError::Io(what, e.message));
            },
        }
        Ok(
            Pool {
                root: repo_root.to_owned(),
                dir,
                config: opts.config.copy(),
                lock_timeout: opts.lock_timeout,
                env,
            },
        )
    }

    /// Opens a pool whose directory is known. The directory above it stands
    /// for the repository.
    pub fn open_at_with_env(pool_dir: &str, opts: &OpenOptions, env: E) -> (r: Result<
        Pool<E>,
        PoolError,
    >)
        ensures
            match r {
                Ok(p) => p.dir@ == pool_dir@ && p.root@ == match parent_spec(pool_dir@) {
                    Some(up) => up,
                    None => pool_dir@,
                } && opened_with(p, *opts) && p.env.present_view(pool_dir@) && kept(&env, &p.env),
                Err(e) => e matches PoolError::Io(what, _) && what@ == "creating pool dir "@
                    + pool_dir@,
            },
    {
        let mut env = env;
        match env.ensure_dir(pool_dir) {
            Ok(_) => {},
            Err(e) => {
                let mut what = "creating pool dir ".to_owned();
                what.append(pool_dir);
                return Err(PoolError::Io(what, e.message));
            },
        }
        let root = match parent(pool_dir) {
            Some(up) => up,
            None => pool_dir.to_owned(),
        };
        Ok(
            Pool {
                root,
                dir: pool_dir.to_owned(),
                config: opts.config.copy(),
                lock_timeout: opts.lock_timeout,
                env,
            },
        )
    }

    /// The directory of the pool.
    pub fn pool_dir(&self) -> (r: &str)
        ensures
            r@ == self.dir@,
    {
        self.dir.as_str()
    }

    /// The environment of the pool.
    pub fn env(&self) -> (r: &E)
        ensures
            *r == self.env,
    {
        &self.env
    }
}

// ---------- acquiring ----------

/// Nobody has the worktree: it is not being destroyed, not leased, not owned,
/// and no process runs in it. `dir` is its resolved path; a worktree whose
/// path does not resolve counts as in use.
pub open spec fn idle(e: EntryView, rs: Seq<ProcessRecord>, dir: Option<Seq<char>>) -> bool {
    &&& !e.destroying
    &&& !e.leased
    &&& !owned(e, rs)
    &&& dir matches Some(d)
    &&& running_in(rs, d).len() == 0
}

/// The resolved path of each worktree.
pub open spec fn dir_at(dirs: Seq<Option<String>>, i: int) -> Option<Seq<char>> {
    opt_view(dirs[i])
}

/// The first worktree at or after `from` that nobody has; the length of the
/// state where there is none.
pub open spec fn first_idle(
    s: Seq<EntryView>,
    rs: Seq<ProcessRecord>,
    dirs: Seq<Option<String>>,
    from: int,
) -> int
    decreases s.len() - from,
{
    if from >= s.len() || idle(s[from], rs, dir_at(dirs, from)) {
        from
    } else {
        first_idle(s, rs, dirs, from + 1)
    }
}

/// The next step in finding a worktree to hand out.
#[derive(Clone, Debug, PartialEq, Eq)]
pub enum AcquireStep {
    /// Nobody has this worktree: take it, unless it has changes.
    CheckDirty(usize),
    /// No worktree is free: make this one.
    Create { name: String, path: String },
    /// No worktree is free, and the pool is full.
    Full { count: u32, max: u32 },
}

/// The number that a name stands for, 0 where it stands for none.
pub open spec fn number_of(name: Seq<char>) -> nat {
    match natural(name) {
        Some(n) => if n <= i32::MAX {
            n
        } else {
            0
        },
        None => 0,
    }
}

/// The largest number among the names.
pub open spec fn max_number(s: Seq<EntryView>) -> nat
    decreases s.len(),
{
    if s.len() == 0 {
        0
    } else {
        let rest = max_number(s.drop_last());
        if number_of(s.last().name) > rest {
            number_of(s.last().name)
        } else {
            rest
        }
    }
}

/// The largest number among the names of a state.
pub fn largest_number(state: &State) -> (r: u64)
    ensures
        r == max_number(state@),
        r <= i32::MAX,
{
    let mut max: u64 = 0;
    let mut i: usize = 0;
    assert(state@.take(0) =~= seq![]);
    while i < state.worktrees.len()
        invariant
            i <= state.worktrees.len(),
            max == max_number(state@.take(i as int)),
            max <= i32::MAX,
        decreases state.worktrees.len() - i,
    {
        proof {
            assert(state@.take(i + 1).drop_last() =~= state@.take(i as int));
            assert(state@.take(i + 1).last() == state.worktrees@[i as int]@);
        }
        if let Some(n) = parse_u64(&state.worktrees[i].name) {
            if n <= i32::MAX as u64 && n > max {
                max = n;
            }
        }
        i += 1;
    }
    assert(state@.take(state.worktrees.len() as int) =~= state@);
    max
}

/// The name of the next worktree: one more than the largest number among the
/// names. Names that are no numbers do not count.
pub fn next_name(state: &State) -> (r: String)
    requires
        max_number(state@) < i32::MAX,
    ensures
        r@ == decimal(max_number(state@) + 1),
{
    decimal_text(largest_number(state) + 1)
}

/// The path of a new worktree: below the pool, in a directory with its name,
/// named like the repository.
pub open spec fn new_path(dir: Seq<char>, name: Seq<char>, root: Seq<char>) -> Seq<char> {
    join_spec(
        join_spec(dir, name),
        match file_name_spec(root) {
            Some(n) => n,
            None => "repo"@,
        },
    )
}

/// The step that finding a worktree comes to, from `from` on.
pub open spec fn acquire_step_spec(
    s: Seq<EntryView>,
    rs: Seq<ProcessRecord>,
    dirs: Seq<Option<String>>,
    from: int,
    max_trees: u32,
    dir: Seq<char>,
    root: Seq<char>,
    r: AcquireStep,
) -> bool {
    let i = first_idle(s, rs, dirs, from);
    if i < s.len() {
        r == AcquireStep::CheckDirty(i as usize)
    } else if (s.len() as u32) >= max_trees {
        r == AcquireStep::Full { count: s.len() as u32, max: max_trees }
    } else {
        &&& r matches AcquireStep::Create { name, path }
        &&& name@ == decimal(max_number(s) + 1)
        &&& path@ == new_path(dir, name@, root)
    }
}

/// The first worktree at or after `from` that nobody has. `dirs` holds the
/// resolved path of each worktree.
pub fn find_idle(
    state: &State,
    process: &ProcessTable,
    dirs: &Vec<Option<String>>,
    from: usize,
) -> (r: Option<usize>)
    requires
        dirs@.len() == state@.len(),
        from <= state@.len(),
    ensures
        match r {
            Some(i) => i == first_idle(state@, process.records@, dirs@, from as int) && i
                < state@.len(),
            None => first_idle(state@, process.records@, dirs@, from as int) >= state@.len(),
        },
{
    let n: usize = state.worktrees.len();
    let mut i: usize = from;
    while i < n
        invariant
            n == state.worktrees.len(),
            dirs@.len() == n,
            from <= i <= n,
            first_idle(state@, process.records@, dirs@, i as int) == first_idle(
                state@,
                process.records@,
                dirs@,
                from as int,
            ),
        decreases n - i,
    {
        let wt = &state.worktrees[i];
        assert(state@[i as int] == wt@);
        if !(wt.destroying || wt.leased || owner_alive(wt, process)) {
            let at: Option<&str> = match &dirs[i] {
                Some(d) => Some(d.as_str()),
                None => None,
            };
            let in_use: bool = match process.is_worktree_in_use(at) {
                Ok(b) => b,
                Err(_) => true,
            };
            if !in_use {
                return Some(i);
            }
        }
        i += 1;
    }
    assert(state@.len() == n);
    None
}

/// The next step in finding a worktree to hand out, looking from `from` on.
/// `dirs` holds the resolved path of each worktree. A worktree with changes is
/// left behind by looking on after it. Where one is to be created, its number
/// must fit.
pub fn acquire_step(
    state: &State,
    process: &ProcessTable,
    dirs: &Vec<Option<String>>,
    from: usize,
    max_trees: u32,
    dir: &str,
    root: &str,
) -> (r: AcquireStep)
    requires
        dirs@.len() == state@.len(),
        from <= state@.len(),
        first_idle(state@, process.records@, dirs@, from as int) >= state@.len() && (
        state@.len() as u32) < max_trees ==> max_number(state@) < i32::MAX,
    ensures
        acquire_step_spec(
            state@,
            process.records@,
            dirs@,
            from as int,
            max_trees,
            dir@,
            root@,
            r,
        ),
        r matches AcquireStep::CheckDirty(i) ==> from <= i < state@.len() && idle(
            state@[i as int],
            process.records@,
            opt_view(dirs@[i as int]),
        ) && forall|j: int|
            from <= j < i ==> !idle(#[trigger] state@[j], process.records@, opt_view(dirs@[j])),
        r is CheckDirty <==> exists|i: int|
            from <= i < state@.len() && idle(
                #[trigger] state@[i],
                process.records@,
                opt_view(dirs@[i]),
            ),
        !(r is CheckDirty) ==> (r is Full <==> state@.len() as u32 >= max_trees),
        !(r is CheckDirty) ==> (r is Create <==> (state@.len() as u32) < max_trees),
        r matches AcquireStep::Full { count, max } ==> count == state@.len() as u32 && max
            == max_trees,
        r matches AcquireStep::Create { name, path } ==> name@ == decimal(max_number(state@) + 1)
            && path@ == new_path(dir@, name@, root@) && forall|i: int|
            0 <= i < state@.len() ==> (#[trigger] state@[i]).name != name@,
{
    proof {
        law_acquire_takes_only_idle(state@, process.records@, dirs@, from as int);
        assert forall|i: int| from <= i < state@.len() && idle(
            #[trigger] state@[i],
            process.records@,
            opt_view(dirs@[i]),
        ) implies first_idle(state@, process.records@, dirs@, from as int) < state@.len() by {
            if first_idle(state@, process.records@, dirs@, from as int) > i {
                assert(!idle(state@[i], process.records@, dir_at(dirs@, i)));
            }
        }
    }
    let n: usize = state.worktrees.len();
    if let Some(i) = find_idle(state, process, dirs, from) {
        return AcquireStep::CheckDirty(i);
    }
    assert(state@.len() == n);
    let count: u32 = n as u32;
    if count >= max_trees {
        return AcquireStep::Full { count, max: max_trees };
    }
    let name = next_name(state);
    let repo_name = match file_name(root) {
        Some(m) => m,
        None => "repo".to_owned(),
    };
    let path = join(&join(dir, &name), &repo_name);
    proof {
        assert forall|i: int| 0 <= i < state@.len() implies (#[trigger] state@[i]).name != name@ by {
            law_next_name_is_fresh(state@, i);
        }
    }
    AcquireStep::Create { name, path }
}

/// The lease ends at a representable instant.
pub open spec fn ttl_fits(now: Timestamp, ttl: Option<Span>) -> bool {
    ttl matches Some(span) ==> span.wf() && now.value() + span.value() < (MAX_SECS + 1) * NANOS
}

/// When a lease that is taken now ends.
pub fn lease_end(now: Timestamp, ttl: Option<Span>) -> (r: Option<Timestamp>)
    requires
        now.wf(),
        now.nanos < NANOS,
        ttl_fits(now, ttl),
    ensures
        match ttl {
            Some(span) => r matches Some(end) && end.wf() && end.nanos < NANOS && end.value()
                == now.value() + span.value(),
            None => r is None,
        },
{
    match ttl {
        Some(span) => now.plus(span),
        None => None,
    }
}

/// Marks an entry as acquired: leased under the identity `id`, or owned by the
/// process `pid`. An owner whose start time is not known gets a reservation
/// that holds nothing.
pub fn mark_acquired_as(
    wt: &mut WorktreeEntry,
    lease: &Option<LeaseAcquireOptions>,
    id: &str,
    now: Timestamp,
    pid: i32,
    process: &ProcessTable,
) -> (r: Option<Lease>)
    requires
        now.wf(),
        now.nanos < NANOS,
        lease matches Some(o) ==> ttl_fits(now, o.ttl),
    ensures
        match *lease {
            Some(o) => {
                &&& r matches Some(l)
                &&& l@.id == id@
                &&& l@.holder == o.holder@
                &&& l@.acquired_at == now
                &&& match o.ttl {
                    Some(span) => l@.expires_at matches Some(end) && end.wf() && end.value()
                        == now.value() + span.value(),
                    None => l@.expires_at is None,
                }
                &&& final(wt)@ == stamped(old(wt)@, l@)
            },
            None => {
                &&& r is None
                &&& final(wt)@ == (EntryView {
                    owner_pid: pid,
                    owner_started_at: match started_spec(process.records@, pid) {
                        Some(at) => at,
                        None => 0,
                    },
                    ..old(wt)@
                })
            },
        },
{
    match lease {
        Some(o) => {
            mark_acquired_lease_as(wt, id, &o.holder, now);
            let expires_at = lease_end(now, o.ttl);
            if let Some(end) = expires_at {
                wt.expires_at = end;
            }
            Some(
                Lease {
                    id: id.to_owned(),
                    holder: o.holder.clone(),
                    acquired_at: now,
                    expires_at,
                },
            )
        },
        None => {
            wt.owner_pid = pid;
            wt.owner_started_at = match process.started_at(pid) {
                Some(at) => at,
                None => 0,
            };
            None
        },
    }
}

/// Marks an entry as acquired, a lease under a fresh identity.
pub fn mark_acquired_entry(
    wt: &mut WorktreeEntry,
    lease: &Option<LeaseAcquireOptions>,
    now: Timestamp,
    pid: i32,
    process: &ProcessTable,
) -> (r: Option<Lease>)
    requires
        now.wf(),
        now.nanos < NANOS,
        lease matches Some(o) ==> ttl_fits(now, o.ttl),
    ensures
        match *lease {
            Some(o) => {
                &&& r matches Some(l)
                &&& l@.id.len() == 32
                &&& all_hex(l@.id)
                &&& l@.holder == o.holder@
                &&& l@.acquired_at == now
                &&& match o.ttl {
                    Some(span) => l@.expires_at matches Some(end) && end.wf() && end.value()
                        == now.value() + span.value(),
                    None => l@.expires_at is None,
                }
                &&& final(wt)@ == stamped(old(wt)@, l@)
            },
            None => {
                &&& r is None
                &&& final(wt)@ == (EntryView {
                    owner_pid: pid,
                    owner_started_at: match started_spec(process.records@, pid) {
                        Some(at) => at,
                        None => 0,
                    },
                    ..old(wt)@
                })
            },
        },
{
    let id = new_lease_id();
    mark_acquired_as(wt, lease, &id, now, pid, process)
}

/// The entry of a worktree that was just made.
pub fn new_entry(name: &str, path: &str, now: Timestamp) -> (r: WorktreeEntry)
    ensures
        r@ == (EntryView { name: name@, path: path@, created_at: now, ..blank_entry() }),
{
    let mut e = WorktreeEntry::default();
    e.name = name.to_owned();
    e.path = path.to_owned();
    e.created_at = now;
    e
}

/// The entry still carries what acquiring stamped on it: the lease, or the
/// owner. An owner whose start time is not known leaves no trace.
pub open spec fn still_acquired(
    e: EntryView,
    lease: Option<Lease>,
    pid: i32,
    started_at: i64,
) -> bool {
    !e.destroying && match lease {
        Some(l) => e.leased && e.lease_id == l.id@ && e.lease_holder == l.holder@,
        None => if started_at == 0 {
            e.owner_pid == 0
        } else {
            e.owner_pid == pid && e.owner_started_at == started_at
        },
    }
}

/// The position of the first entry with this path; the length where there is
/// none.
pub open spec fn entry_at(s: Seq<EntryView>, path: Seq<char>) -> int
    decreases s.len(),
{
    if s.len() == 0 || s[0].path == path {
        0
    } else {
        1 + entry_at(s.skip(1), path)
    }
}

/// The first entry with a path is the only place that `entry_at` points to.
pub proof fn lemma_entry_at(s: Seq<EntryView>, path: Seq<char>)
    ensures
        0 <= entry_at(s, path) <= s.len(),
        entry_at(s, path) < s.len() ==> s[entry_at(s, path)].path == path,
        forall|j: int| 0 <= j < entry_at(s, path) ==> s[j].path != path,
    decreases s.len(),
{
    if s.len() == 0 || s[0].path == path {
    } else {
        let t = s.skip(1);
        lemma_entry_at(t, path);
        assert forall|j: int| 0 <= j < entry_at(s, path) implies s[j].path != path by {
            if j > 0 {
                assert(t[j - 1] == s[j]);
            }
        }
        if entry_at(s, path) < s.len() {
            assert(t[entry_at(t, path)] == s[entry_at(s, path)]);
        }
    }
}

/// Changing an entry without changing its path leaves the first positions of
/// all paths where they are.
pub proof fn lemma_entry_at_update(s: Seq<EntryView>, i: int, e: EntryView, path: Seq<char>)
    requires
        0 <= i < s.len(),
        e.path == s[i].path,
    ensures
        entry_at(s.update(i, e), path) == entry_at(s, path),
{
    let t = s.update(i, e);
    lemma_entry_at(s, path);
    lemma_entry_at(t, path);
    let a = entry_at(s, path);
    let b = entry_at(t, path);
    if a < b {
        assert(t[a].path == s[a].path);
    } else if b < a {
        assert(s[b].path == t[b].path);
    }
}

/// The position of the first entry with this path.
pub fn find_entry(state: &State, path: &str) -> (r: Option<usize>)
    ensures
        match r {
            Some(i) => i < state@.len() && i == entry_at(state@, path@),
            None => entry_at(state@, path@) == state@.len(),
        },
{
    let mut i: usize = 0;
    proof {
        lemma_entry_at(state@, path@);
    }
    while i < state.worktrees.len()
        invariant
            i <= state.worktrees.len(),
            forall|j: int| 0 <= j < i ==> state@[j].path != path@,
            entry_at(state@, path@) < state@.len() ==> state@[entry_at(state@, path@)].path == path@,
            0 <= entry_at(state@, path@) <= state@.len(),
            forall|j: int| 0 <= j < entry_at(state@, path@) ==> state@[j].path != path@,
        decreases state.worktrees.len() - i,
    {
        assert(state@[i as int] == state.worktrees@[i as int]@);
        if same_text(&state.worktrees[i].path, path) {
            return Some(i);
        }
        i += 1;
    }
    assert(state@.len() == state.worktrees.len());
    None
}

/// Whether a worktree that was acquired is still held after it was reset. A
/// worktree that vanished or that somebody else has by now is an error.
pub fn recheck_acquired(
    state: &State,
    path: &str,
    lease: &Option<Lease>,
    pid: i32,
    started_at: i64,
) -> (r: Result<(), PoolError>)
    ensures
        ({
            let i = entry_at(state@, path@);
            if i < state@.len() && still_acquired(state@[i], *lease, pid, started_at) {
                r is Ok
            } else {
                r matches Err(PoolError::NotFound(p)) && p@ == path@
            }
        }),
{
    if let Some(i) = find_entry(state, path) {
        let wt = &state.worktrees[i];
        assert(state@[i as int] == wt@);
        let held: bool = !wt.destroying && match lease {
            Some(l) => wt.leased && same_text(&wt.lease_id, &l.id) && same_text(
                &wt.lease_holder,
                &l.holder,
            ),
            None => if started_at == 0 {
                wt.owner_pid == 0
            } else {
                wt.owner_pid == pid && wt.owner_started_at == started_at
            },
        };
        if held {
            return Ok(());
        }
    }
    Err(PoolError::NotFound(path.to_owned()))
}

/// The identity of the lease of an acquired worktree; empty where it has none.
pub fn lease_info(acquired: &Acquired, holder: &str) -> (r: LeaseInfo)
    ensures
        r.path@ == acquired.path@,
        r.lease_holder@ == holder@,
        match acquired.lease {
            Some(l) => r.lease_id@ == l.id@ && r.leased_at == l.acquired_at,
            None => r.lease_id@.len() == 0 && r.leased_at == zero_time(),
        },
{
    match &acquired.lease {
        Some(l) => LeaseInfo {
            path: acquired.path.clone(),
            lease_id: l.id.clone(),
            lease_holder: holder.to_owned(),
            leased_at: l.acquired_at,
        },
        None => LeaseInfo {
            path: acquired.path.clone(),
            lease_id: String::new(),
            lease_holder: holder.to_owned(),
            leased_at: Timestamp::zero(),
        },
    }
}

// ---------- returning ----------

/// What a return expects of the lease; nothing where both are none.
#[derive(Clone, Debug, PartialEq, Eq)]
pub struct ReleasePreconditions {
    pub expected_lease_id: Option<String>,
    pub expected_lease_holder: Option<String>,
}

impl Default for ReleasePreconditions {
    fn default() -> (r: ReleasePreconditions)
        ensures
            r.expected_lease_id is None,
            r.expected_lease_holder is None,
    {
        ReleasePreconditions { expected_lease_id: None, expected_lease_holder: None }
    }
}

/// Why a worktree cannot be returned.
pub enum Refusal {
    Unmanaged,
    Destroying,
    NotLeased,
    WrongIdentity,
    WrongHolder,
}

/// The error of a refusal.
pub open spec fn is_refusal(e: PoolError, why: Refusal, path: Seq<char>) -> bool {
    match why {
        Refusal::Unmanaged => e matches PoolError::NotFound(p) && p@ == path,
        Refusal::Destroying => e matches PoolError::BeingDestroyed(p) && p@ == path,
        Refusal::NotLeased => e matches PoolError::LeasePrecondition { path: p, reason } && p@
            == path && reason@ == "worktree is not leased"@,
        Refusal::WrongIdentity => e matches PoolError::LeasePrecondition { path: p, reason } && p@
            == path && reason@ == "lease identity does not match worktree "@ + path,
        Refusal::WrongHolder => e matches PoolError::LeasePrecondition { path: p, reason } && p@
            == path && reason@ == "lease holder does not match worktree "@ + path,
    }
}

/// What the lease of an entry says against a return.
pub open spec fn lease_refusal(e: EntryView, pre: ReleasePreconditions) -> Option<Refusal> {
    if pre.expected_lease_id is None && pre.expected_lease_holder is None {
        None
    } else if !e.leased {
        Some(Refusal::NotLeased)
    } else if pre.expected_lease_id is Some && e.lease_id != pre.expected_lease_id->0@ {
        Some(Refusal::WrongIdentity)
    } else if pre.expected_lease_holder is Some && e.lease_holder != pre.expected_lease_holder->0@ {
        Some(Refusal::WrongHolder)
    } else {
        None
    }
}

/// What stands against returning the worktree at `path`.
pub open spec fn refusal(
    s: Seq<EntryView>,
    path: Seq<char>,
    pre: ReleasePreconditions,
) -> Option<Refusal> {
    let i = entry_at(s, path);
    if i >= s.len() {
        Some(Refusal::Unmanaged)
    } else if s[i].destroying {
        Some(Refusal::Destroying)
    } else {
        lease_refusal(s[i], pre)
    }
}

/// The entry of a worktree that was returned: no owner, no lease.
pub open spec fn released(e: EntryView) -> EntryView {
    EntryView { owner_pid: 0, owner_started_at: 0, ..e.unleased() }
}

fn validate_release_preconditions_inner(wt: &WorktreeEntry, pre: &ReleasePreconditions) -> (r:
    Result<(), PoolError>)
    ensures
        match lease_refusal(wt@, *pre) {
            None => r is Ok,
            Some(why) => r matches Err(e) && is_refusal(e, why, wt.path@),
        },
{
    if pre.expected_lease_id.is_none() && pre.expected_lease_holder.is_none() {
        return Ok(());
    }
    if !wt.leased {
        return Err(
            PoolError::LeasePrecondition {
                path: wt.path.clone(),
                reason: "worktree is not leased".to_owned(),
            },
        );
    }
    if let Some(id) = &pre.expected_lease_id {
        if !same_text(&wt.lease_id, id) {
            let mut reason = "lease identity does not match worktree ".to_owned();
            reason.append(&wt.path);
            return Err(PoolError::LeasePrecondition { path: wt.path.clone(), reason });
        }
    }
    if let Some(holder) = &pre.expected_lease_holder {
        if !same_text(&wt.lease_holder, holder) {
            let mut reason = "lease holder does not match worktree ".to_owned();
            reason.append(&wt.path);
            return Err(PoolError::LeasePrecondition { path: wt.path.clone(), reason });
        }
    }
    Ok(())
}

/// The position of the worktree at `path`, if it can be returned.
pub fn releasable_worktree(state: &State, path: &str, pre: &ReleasePreconditions) -> (r: Result<
    usize,
    PoolError,
>)
    ensures
        match refusal(state@, path@, *pre) {
            None => r matches Ok(i) && i == entry_at(state@, path@) && i < state@.len(),
            Some(why) => r matches Err(e) && is_refusal(e, why, path@),
        },
{
    match find_entry(state, path) {
        None => Err(PoolError::NotFound(path.to_owned())),
        Some(i) => {
            let wt = &state.worktrees[i];
            proof {
                lemma_entry_at(state@, path@);
                assert(state@[i as int] == wt@);
            }
            if wt.destroying {
                return Err(PoolError::BeingDestroyed(path.to_owned()));
            }
            match validate_release_preconditions_inner(wt, pre) {
                Ok(_) => Ok(i),
                Err(e) => Err(e),
            }
        },
    }
}

/// Whether the worktree at `path` can be returned.
pub fn validate_release_preconditions(
    state: &State,
    path: &str,
    pre: &ReleasePreconditions,
) -> (r: Result<(), PoolError>)
    ensures
        match refusal(state@, path@, *pre) {
            None => r is Ok,
            Some(why) => r matches Err(e) && is_refusal(e, why, path@),
        },
{
    match releasable_worktree(state, path, pre) {
        Ok(_) => Ok(()),
        Err(e) => Err(e),
    }
}

/// Returns the worktree at `path`: checks the preconditions and clears owner
/// and lease in one step. A refused return changes nothing.
pub fn release_conditional(state: &mut State, path: &str, pre: &ReleasePreconditions) -> (r: Result<
    (),
    PoolError,
>)
    ensures
        match refusal(old(state)@, path@, *pre) {
            None => {
                let i = entry_at(old(state)@, path@);
                r is Ok && final(state)@ == old(state)@.update(i, released(old(state)@[i]))
            },
            Some(why) => r matches Err(e) && is_refusal(e, why, path@) && final(state)@ == old(
                state,
            )@,
        },
{
    let i: usize = match releasable_worktree(state, path, pre) {
        Ok(i) => i,
        Err(e) => return Err(e),
    };
    let ghost before = state.worktrees@;
    assert(state@[i as int] == before[i as int]@);
    let mut wt = state.worktrees[i].copy();
    wt.owner_pid = 0;
    wt.owner_started_at = 0;
    clear_lease(&mut wt);
    proof {
        lemma_entry_views_update(before, i as int, wt);
    }
    state.worktrees.set(i, wt);
    Ok(())
}

/// Returns the worktree at `path`, whatever its lease says.
pub fn release(state: &mut State, path: &str) -> (r: Result<(), PoolError>)
    ensures
        ({
            let i = entry_at(old(state)@, path@);
            if i >= old(state)@.len() {
                r matches Err(PoolError::NotFound(p)) && p@ == path@ && final(state)@ == old(state)@
            } else if old(state)@[i].destroying {
                r matches Err(PoolError::BeingDestroyed(p)) && p@ == path@ && final(state)@ == old(
                    state,
                )@
            } else {
                r is Ok && final(state)@ == old(state)@.update(i, released(old(state)@[i]))
            }
        }),
{
    let pre = ReleasePreconditions::default();
    release_conditional(state, path, &pre)
}

// ---------- status ----------

/// The processes that are shown for a worktree; none where its path does not
/// resolve.
pub open spec fn shown_processes(rs: Seq<ProcessRecord>, dir: Option<Seq<char>>) -> Seq<
    ProcessInfoView,
> {
    match dir {
        Some(d) => running_in(rs, d),
        None => seq![],
    }
}

/// The state of a worktree as it is shown. A lease comes first, then an owner,
/// then processes, which may be the caller's own; changes only count in a
/// worktree that nobody has.
pub open spec fn status_text(
    e: EntryView,
    rs: Seq<ProcessRecord>,
    dir: Option<Seq<char>>,
    here: bool,
    dirty: bool,
) -> Seq<char> {
    if e.leased {
        STATUS_LEASED@
    } else if owned(e, rs) {
        STATUS_IN_USE@
    } else if shown_processes(rs, dir).len() > 0 {
        if here {
            STATUS_HERE@
        } else {
            STATUS_IN_USE@
        }
    } else if dirty {
        STATUS_DIRTY@
    } else {
        STATUS_AVAILABLE@
    }
}

/// Whether `cwd` is inside the worktree. Both are resolved.
pub fn cwd_in_worktree(cwd: &str, worktree: &str) -> (r: bool)
    ensures
        r == inside(worktree@, cwd@),
{
    is_inside(worktree, cwd)
}

/// Whether the state of a worktree hangs on whether it has changes.
pub fn needs_dirty_check(wt: &WorktreeEntry, process: &ProcessTable, dir: Option<&str>) -> (r: bool)
    ensures
        r == (!wt.destroying && !wt.leased && !owned(wt@, process.records@) && shown_processes(
            process.records@,
            opt_str_view(dir),
        ).len() == 0),
{
    if wt.destroying || wt.leased || owner_alive(wt, process) {
        return false;
    }
    match process.is_worktree_in_use(dir) {
        Ok(in_use) => !in_use,
        Err(_) => true,
    }
}

/// What is shown of a worktree; nothing while it is being destroyed. `here`
/// tells whether the caller stands in it, `dirty` whether it has changes. A
/// lease that has passed its end still holds: it is marked as stale.
pub fn worktree_status(
    wt: &WorktreeEntry,
    process: &ProcessTable,
    dir: Option<&str>,
    here: bool,
    dirty: bool,
    now: Timestamp,
) -> (r: Option<WorktreeStatus>)
    ensures
        if wt.destroying {
            r is None
        } else {
            &&& r matches Some(ws)
            &&& ws.name@ == wt.name@
            &&& ws.path@ == wt.path@
            &&& ws.status@ == status_text(
                wt@,
                process.records@,
                opt_str_view(dir),
                here,
                dirty,
            )
            &&& info_views(ws.processes@) == shown_processes(process.records@, opt_str_view(dir))
            &&& ws.lease_id@ == if wt.leased {
                wt.lease_id@
            } else {
                seq![]
            }
            &&& ws.lease_holder@ == if wt.leased {
                wt.lease_holder@
            } else {
                seq![]
            }
            &&& ws.leased_at == if wt.leased {
                wt.leased_at
            } else {
                zero_time()
            }
            &&& ws.expires_at == if wt.leased {
                wt.expires_at
            } else {
                zero_time()
            }
            &&& ws.stale == wt@.stale(now)
        },
{
    if wt.destroying {
        return None;
    }
    let processes: Vec<ProcessInfo> = match process.find_in_worktree(dir) {
        Ok(v) => v,
        Err(_) => {
            let none: Vec<ProcessInfo> = Vec::new();
            assert(info_views(none@) =~= Seq::<ProcessInfoView>::empty());
            none
        },
    };
    assert(info_views(processes@).len() == processes.len());
    let mut ws = WorktreeStatus {
        name: wt.name.clone(),
        path: wt.path.clone(),
        status: STATUS_AVAILABLE.to_owned(),
        processes,
        lease_id: String::new(),
        lease_holder: String::new(),
        leased_at: Timestamp::zero(),
        expires_at: Timestamp::zero(),
        stale: wt.is_stale_lease(now),
    };
    if wt.leased {
        ws.status = STATUS_LEASED.to_owned();
        ws.lease_id = wt.lease_id.clone();
        ws.lease_holder = wt.lease_holder.clone();
        ws.leased_at = wt.leased_at;
        ws.expires_at = wt.expires_at;
    } else if owner_alive(wt, process) {
        ws.status = STATUS_IN_USE.to_owned();
    } else if ws.processes.len() > 0 {
        ws.status = STATUS_IN_USE.to_owned();
        if here {
            ws.status = STATUS_HERE.to_owned();
        }
    } else if dirty {
        ws.status = STATUS_DIRTY.to_owned();
    }
    Some(ws)
}

// ---------- laws ----------

/// What is handed out is what nobody has: never a leased worktree, never one
/// that is being destroyed, never one with a live owner or a process in it.
pub proof fn law_acquire_takes_only_idle(
    s: Seq<EntryView>,
    rs: Seq<ProcessRecord>,
    dirs: Seq<Option<String>>,
    from: int,
)
    requires
        0 <= from <= s.len(),
    ensures
        ({
            let i = first_idle(s, rs, dirs, from);
            &&& from <= i <= s.len()
            &&& i < s.len() ==> idle(s[i], rs, dir_at(dirs, i)) && !s[i].leased && !s[i].destroying
                && !owned(s[i], rs)
            &&& forall|j: int| from <= j < i ==> !idle(#[trigger] s[j], rs, dir_at(dirs, j))
        }),
    decreases s.len() - from,
{
    if from < s.len() && !idle(s[from], rs, dir_at(dirs, from)) {
        law_acquire_takes_only_idle(s, rs, dirs, from + 1);
    }
}

/// A worktree that was just acquired is not handed out again, as long as its
/// lease is there or its owner lives.
pub proof fn law_acquired_is_not_idle(
    e: EntryView,
    rs: Seq<ProcessRecord>,
    dir: Option<Seq<char>>,
    lease: LeaseView,
    pid: i32,
)
    requires
        pid != 0,
        started_spec(rs, pid) matches Some(at) && at != 0,
    ensures
        !idle(stamped(e, lease), rs, dir),
        !idle(
            EntryView { owner_pid: pid, owner_started_at: started_spec(rs, pid)->0, ..e },
            rs,
            dir,
        ),
{
}

/// The name of a new worktree is not taken.
pub proof fn law_next_name_is_fresh(s: Seq<EntryView>, i: int)
    requires
        0 <= i < s.len(),
        max_number(s) < i32::MAX,
    ensures
        s[i].name != decimal(max_number(s) + 1),
{
    lemma_decimal_value(max_number(s) + 1);
    lemma_max_number(s, i);
}

proof fn lemma_max_number(s: Seq<EntryView>, i: int)
    requires
        0 <= i < s.len(),
    ensures
        number_of(s[i].name) <= max_number(s),
    decreases s.len(),
{
    if i < s.len() - 1 {
        assert(s.drop_last()[i] == s[i]);
        lemma_max_number(s.drop_last(), i);
    }
}

/// A conditional return succeeds once: where it expects something of the
/// lease and went through, a second one is refused, since nothing is leased
/// any more.
pub proof fn law_conditional_release_once(
    s: Seq<EntryView>,
    path: Seq<char>,
    pre: ReleasePreconditions,
)
    requires
        refusal(s, path, pre) is None,
        pre.expected_lease_id is Some || pre.expected_lease_holder is Some,
    ensures
        ({
            let i = entry_at(s, path);
            refusal(s.update(i, released(s[i])), path, pre) == Some(Refusal::NotLeased)
        }),
{
    let i = entry_at(s, path);
    lemma_entry_at(s, path);
    lemma_entry_at_update(s, i, released(s[i]), path);
}

/// A return that expects the identity of an earlier lease is refused: every
/// acquisition has an identity of its own.
pub proof fn law_stale_identity_is_refused(
    s: Seq<EntryView>,
    path: Seq<char>,
    pre: ReleasePreconditions,
    lease: LeaseView,
)
    requires
        entry_at(s, path) < s.len(),
        !s[entry_at(s, path)].destroying,
        pre.expected_lease_id is Some,
        lease.id != pre.expected_lease_id->0@,
    ensures
        ({
            let i = entry_at(s, path);
            refusal(s.update(i, stamped(s[i], lease)), path, pre) == Some(Refusal::WrongIdentity)
        }),
{
    let i = entry_at(s, path);
    lemma_entry_at(s, path);
    lemma_entry_at_update(s, i, stamped(s[i], lease), path);
}

/// A returned worktree is free: nobody owns or leases it. Other worktrees are
/// untouched.
pub proof fn law_release_frees(s: Seq<EntryView>, path: Seq<char>, rs: Seq<ProcessRecord>, j: int)
    requires
        entry_at(s, path) < s.len(),
        0 <= j < s.len(),
    ensures
        ({
            let i = entry_at(s, path);
            let t = s.update(i, released(s[i]));
            &&& t.len() == s.len()
            &&& j != i ==> t[j] == s[j]
            &&& !t[i].leased
            &&& !owned(t[i], rs)
            &&& t[i].path == s[i].path && t[i].name == s[i].name
        }),
{
    lemma_entry_at(s, path);
}

/// Without a configured root a pool lies right below the root of the
/// environment.
pub proof fn law_pool_lies_below_the_root<E: TreehouseEnv>(
    repo_root: Seq<char>,
    remote: Option<Seq<char>>,
    env: &E,
    root: Seq<char>,
)
    requires
        env.root_view() == Some(root),
    ensures
        pool_dir_in(repo_root, None, remote, env) == Ok::<Seq<char>, InvalidView>(
            join_spec(root, pool_name(repo_root, remote)),
        ),
{
}

/// Nobody has a worktree exactly if it is not being destroyed, not leased, has
/// no live owner, and its path resolves to a directory in which no process of
/// the table runs.
pub proof fn law_idle_exactly(e: EntryView, rs: Seq<ProcessRecord>, dir: Option<Seq<char>>)
    ensures
        idle(e, rs, dir) <==> {
            &&& !e.destroying
            &&& !e.leased
            &&& !owned(e, rs)
            &&& dir is Some
            &&& forall|i: int|
                0 <= i < rs.len() ==> ((#[trigger] rs[i]).cwd matches Some(cwd) ==> !inside(
                    dir->0,
                    cwd@,
                ))
        },
{
    if let Some(d) = dir {
        crate::process::law_every_process_is_found(rs, d);
    }
}

/// A worktree that nobody has is handed out whenever there is one; else a new
/// one is made as long as the pool has fewer than it may have, and only a pool
/// that has as many is full.
pub proof fn law_full_only_at_the_limit(
    s: Seq<EntryView>,
    rs: Seq<ProcessRecord>,
    dirs: Seq<Option<String>>,
    from: int,
    max_trees: u32,
    dir: Seq<char>,
    root: Seq<char>,
    r: AcquireStep,
)
    requires
        0 <= from <= s.len() <= u32::MAX,
        acquire_step_spec(s, rs, dirs, from, max_trees, dir, root, r),
    ensures
        ({
            let some_idle = exists|i: int|
                from <= i < s.len() && idle(#[trigger] s[i], rs, opt_view(dirs[i]));
            &&& r is CheckDirty <==> some_idle
            &&& r is Full <==> !some_idle && s.len() >= max_trees
            &&& r is Create <==> !some_idle && s.len() < max_trees
            &&& r matches AcquireStep::Full { count, max } ==> count == s.len() && max == max_trees
            &&& r matches AcquireStep::CheckDirty(i) ==> from <= i < s.len() && idle(
                s[i as int],
                rs,
                opt_view(dirs[i as int]),
            )
            &&& r matches AcquireStep::Create { name, path } ==> name@ == decimal(max_number(s) + 1)
                && path@ == new_path(dir, name@, root)
        }),
{
    law_acquire_takes_only_idle(s, rs, dirs, from);
    let k = first_idle(s, rs, dirs, from);
    if k < s.len() {
        assert(idle(s[k], rs, opt_view(dirs[k])));
    }
    assert forall|i: int| from <= i < s.len() && idle(
        #[trigger] s[i],
        rs,
        opt_view(dirs[i]),
    ) implies k < s.len() by {
        if k > i {
            assert(!idle(s[i], rs, dir_at(dirs, i)));
        }
    }
}

/// The number of a new worktree is one more than the largest in use: no name
/// has a larger number than the largest, and some name has it unless it is
/// zero. A number in words stands for itself.
pub proof fn law_largest_number_is_in_use(s: Seq<EntryView>, n: nat)
    ensures
        forall|i: int| 0 <= i < s.len() ==> number_of((#[trigger] s[i]).name) <= max_number(s),
        max_number(s) == 0 || exists|i: int|
            0 <= i < s.len() && number_of((#[trigger] s[i]).name) == max_number(s),
        n <= i32::MAX ==> number_of(decimal(n)) == n,
    decreases s.len(),
{
    lemma_decimal_value(n);
    if s.len() > 0 {
        let front = s.drop_last();
        law_largest_number_is_in_use(front, n);
        assert forall|i: int| 0 <= i < s.len() implies number_of((#[trigger] s[i]).name)
            <= max_number(s) by {
            lemma_max_number(s, i);
        }
        if max_number(s) != 0 {
            if number_of(s.last().name) > max_number(front) {
                assert(number_of(s[s.len() - 1].name) == max_number(s));
            } else {
                let i = choose|i: int|
                    0 <= i < front.len() && number_of((#[trigger] front[i]).name) == max_number(
                        front,
                    );
                assert(number_of(s[i].name) == max_number(s));
            }
        }
    }
}

/// A new worktree lies below the pool, in a directory with its own name, and is
/// named like the repository.
pub proof fn law_new_path_is_below_the_pool(
    dir: Seq<char>,
    name: Seq<char>,
    root: Seq<char>,
    repo: Seq<char>,
)
    requires
        dir.len() > 0,
        dir.last() != '/',
        name.len() > 0,
        name[0] != '/',
        name.last() != '/',
        file_name_spec(root) == Some(repo),
        repo.len() > 0,
        repo[0] != '/',
    ensures
        new_path(dir, name, root) == dir + seq!['/'] + name + seq!['/'] + repo,
{
    let slot = dir + seq!['/'] + name;
    assert(slot.last() == name.last());
}

/// What was acquired is still there exactly if the entry is not being destroyed
/// and carries the lease, or the owner where there is no lease.
pub proof fn law_still_acquired_exactly(
    e: EntryView,
    lease: Option<Lease>,
    pid: i32,
    started_at: i64,
)
    ensures
        still_acquired(e, lease, pid, started_at) ==> !e.destroying,
        !e.destroying && lease is Some ==> (still_acquired(e, lease, pid, started_at) <==> e.leased
            && e.lease_id == lease->0.id@ && e.lease_holder == lease->0.holder@),
        !e.destroying && lease is None && started_at != 0 ==> (still_acquired(
            e,
            lease,
            pid,
            started_at,
        ) <==> e.owner_pid == pid && e.owner_started_at == started_at),
        !e.destroying && lease is None && started_at == 0 ==> (still_acquired(
            e,
            lease,
            pid,
            started_at,
        ) <==> e.owner_pid == 0),
{
}

/// A worktree can be returned exactly if the state has it, it is not being
/// destroyed, and its lease is the one that was expected, if any was. What
/// stands against it is said for what it is.
pub proof fn law_returned_exactly_if_expected(
    s: Seq<EntryView>,
    path: Seq<char>,
    pre: ReleasePreconditions,
    i: int,
)
    requires
        0 <= i < s.len(),
        s[i].path == path,
        forall|j: int| 0 <= j < i ==> (#[trigger] s[j]).path != path,
    ensures
        ({
            let e = s[i];
            let asked = pre.expected_lease_id is Some || pre.expected_lease_holder is Some;
            let id_fits = pre.expected_lease_id matches Some(id) ==> e.lease_id == id@;
            let holder_fits = pre.expected_lease_holder matches Some(h) ==> e.lease_holder == h@;
            &&& refusal(s, path, pre) is None <==> !e.destroying && (asked ==> e.leased && id_fits
                && holder_fits)
            &&& e.destroying ==> refusal(s, path, pre) == Some(Refusal::Destroying)
            &&& !e.destroying && asked && !e.leased ==> refusal(s, path, pre) == Some(
                Refusal::NotLeased,
            )
            &&& !e.destroying && e.leased && !id_fits ==> refusal(s, path, pre) == Some(
                Refusal::WrongIdentity,
            )
            &&& !e.destroying && e.leased && id_fits && !holder_fits ==> refusal(s, path, pre)
                == Some(Refusal::WrongHolder)
        }),
{
    lemma_entry_at(s, path);
    if entry_at(s, path) < i {
        assert(s[entry_at(s, path)].path == path);
    }
}

/// A path that the state does not have cannot be returned.
pub proof fn law_unmanaged_is_refused(
    s: Seq<EntryView>,
    path: Seq<char>,
    pre: ReleasePreconditions,
)
    requires
        forall|j: int| 0 <= j < s.len() ==> (#[trigger] s[j]).path != path,
    ensures
        refusal(s, path, pre) == Some(Refusal::Unmanaged),
{
    lemma_entry_at(s, path);
}

/// A return takes the owner and the lease away, and touches nothing else.
pub proof fn law_return_clears_owner_and_lease(e: EntryView)
    ensures
        ({
            let r = released(e);
            &&& r.owner_pid == 0
            &&& r.owner_started_at == 0
            &&& !r.leased
            &&& r.lease_id.len() == 0
            &&& r.lease_holder.len() == 0
            &&& r.leased_at == zero_time()
            &&& r.expires_at == zero_time()
            &&& r.name == e.name
            &&& r.path == e.path
            &&& r.created_at == e.created_at
            &&& r.destroying == e.destroying
        }),
{
}

/// A worktree that was returned, has no process in it and is not being
/// destroyed can be handed out again.
pub proof fn law_returned_is_handed_out_again(
    e: EntryView,
    rs: Seq<ProcessRecord>,
    dir: Seq<char>,
)
    requires
        !e.destroying,
        running_in(rs, dir).len() == 0,
    ensures
        idle(released(e), rs, Some(dir)),
{
}

/// A worktree is shown as leased, as in use, as the place of the caller, as
/// dirty or as available, by what weighs most. A directory that cannot be
/// resolved shows no processes.
pub proof fn law_status_shows_what_weighs_most(
    e: EntryView,
    rs: Seq<ProcessRecord>,
    dir: Option<Seq<char>>,
    here: bool,
    dirty: bool,
)
    ensures
        ({
            let shown = status_text(e, rs, dir, here, dirty);
            let processes = dir matches Some(d) && running_in(rs, d).len() > 0;
            &&& e.leased ==> shown == "leased"@
            &&& !e.leased && owned(e, rs) ==> shown == "in-use"@
            &&& !e.leased && !owned(e, rs) && processes && here ==> shown == "you're here"@
            &&& !e.leased && !owned(e, rs) && processes && !here ==> shown == "in-use"@
            &&& !e.leased && !owned(e, rs) && !processes && dirty ==> shown == "dirty"@
            &&& !e.leased && !owned(e, rs) && !processes && !dirty ==> shown == "available"@
            &&& dir matches Some(d) ==> shown_processes(rs, dir) == running_in(rs, d)
            &&& dir is None ==> shown_processes(rs, dir).len() == 0
        }),
{
}

/// What is shown as available is what would be handed out: nobody has it and it
/// is clean.
pub proof fn law_available_is_idle(
    e: EntryView,
    rs: Seq<ProcessRecord>,
    dir: Seq<char>,
    here: bool,
    dirty: bool,
)
    requires
        !e.destroying,
    ensures
        status_text(e, rs, Some(dir), here, dirty) == "available"@ <==> idle(e, rs, Some(dir))
            && !dirty,
{
    reveal_strlit("leased");
    reveal_strlit("in-use");
    reveal_strlit("you're here");
    reveal_strlit("dirty");
    reveal_strlit("available");
    assert("leased"@.len() == 6);
    assert("in-use"@.len() == 6);
    assert("you're here"@.len() == 11);
    assert("dirty"@.len() == 5);
    assert("available"@.len() == 9);
}

/// A pool that was opened has the settings, the hooks and the lock timeout of
/// its options.
pub proof fn law_pool_has_the_settings_of_its_options<E>(p: Pool<E>, opts: OpenOptions)
    requires
        opened_with(p, opts),
    ensures
        p.config.max_trees == opts.config.max_trees,
        opt_view(p.config.root) == opt_view(opts.config.root),
        p.config.lease_ttl_secs == opts.config.lease_ttl_secs,
        p.config.hooks.post_create@ == opts.config.hooks.post_create@,
        p.config.hooks.pre_destroy@ == opts.config.hooks.pre_destroy@,
        p.lock_timeout == opts.lock_timeout,
{
}

/// The reasons for refusing a return are told apart by their errors.
pub proof fn law_refusals_are_told_apart(e: PoolError, a: Refusal, b: Refusal, path: Seq<char>)
    requires
        is_refusal(e, a, path),
        is_refusal(e, b, path),
    ensures
        a == b,
        a == Refusal::Unmanaged <==> e is NotFound,
        a == Refusal::Destroying <==> e is BeingDestroyed,
{
    reveal_strlit("worktree is not leased");
    reveal_strlit("lease identity does not match worktree ");
    reveal_strlit("lease holder does not match worktree ");
    assert("worktree is not leased"@.len() == 22);
    assert("lease identity does not match worktree "@.len() == 39);
    assert("lease holder does not match worktree "@.len() == 37);
    assert(("lease identity does not match worktree "@ + path).len() == 39 + path.len());
    assert(("lease holder does not match worktree "@ + path).len() == 37 + path.len());
}

/// A pool whose root is configured lies in `.treehouse` below that root, in a
/// directory with its own name.
pub proof fn law_pool_lies_below_the_configured_root<E: TreehouseEnv>(
    repo_root: Seq<char>,
    root: Seq<char>,
    remote: Option<Seq<char>>,
    env: &E,
)
    requires
        root.len() > 0,
        forall|i: int| 0 <= i < root.len() ==> root[i] != '$',
    ensures
        root[0] == '/' ==> pool_dir_in(repo_root, Some(root), remote, env) == Ok::<
            Seq<char>,
            InvalidView,
        >(join_spec(join_spec(root, ".treehouse"@), pool_name(repo_root, remote))),
        root[0] != '/' && repo_root.len() > 0 ==> pool_dir_in(repo_root, Some(root), remote, env)
            == Ok::<Seq<char>, InvalidView>(
            join_spec(
                join_spec(join_spec(repo_root, root), ".treehouse"@),
                pool_name(repo_root, remote),
            ),
        ),
        root[0] != '/' && repo_root.len() == 0 ==> pool_dir_in(
            repo_root,
            Some(root),
            remote,
            env,
        ) is Err,
{
    let look = |name: Seq<char>| env.var_view(name);
    crate::config::law_expand_keeps_plain_text(root, look);
}

/// The errors of a pool in words: a full pool tells how many worktrees it has and
/// how many it may have, the others which worktree they are about and why.
pub proof fn law_pool_errors_in_words(count: u32, max: u32, path: String, reason: String)
    ensures
        (PoolError::PoolFull { count, max }).message_spec() == "all "@ + decimal(count as nat)
            + " worktrees are in use or dirty (max_trees = "@ + decimal(max as nat)
            + "). Run 'treehouse status' to see details, or increase max_trees in treehouse.toml"@,
        PoolError::BeingDestroyed(path).message_spec() == "worktree "@ + path@
            + " is being destroyed"@,
        PoolError::NotFound(path).message_spec() == "worktree "@ + path@
            + " is not managed by treehouse"@,
        (PoolError::LeasePrecondition { path, reason }).message_spec()
            == "lease precondition failed: "@ + path@ + ": "@ + reason@,
        PoolError::Lock(reason).message_spec() == "pool lock: "@ + reason@,
{
}

} // verus!
