//! Finding all pools, for commands that sweep over them.
//!
//! Pools are directories side by side in one root. A directory is a pool only
//! where it holds a state file that parses. Whatever else is found is reported
//! and left alone.

use vstd::prelude::*;
use vstd::string::*;
use vstd::utf8::*;

use crate::config::{
    expand_env, expanded, loads, ConfigError, ConfigFile, EnvVars, TreehouseConfig, VarSource,
};
use crate::env::{rows, FileView, TreehouseEnv};
use crate::gc::{gc_bytes, GcResult, GcSkipped, GcWorktree};
use crate::path::{
    absolute, comps, file_name, file_name_spec, is_absolute, join, join_spec, lemma_row_order,
    path_before, row_less,
};
use crate::prune::{prune_bytes, PruneResult, PruneSkipped, PruneWorktree};
use crate::reclaim::CleanupError;
use crate::state::State;
use crate::state_file::{parse_state, state_parsed};
use crate::text::{opt_view, views};

verus! {

/// A pool that was found.
#[derive(Clone, Debug, PartialEq, Eq)]
pub struct DiscoveredPool {
    pub dir: String,
    pub name: String,
}

/// What looking for pools found.
#[derive(Clone, Debug, PartialEq, Eq)]
pub struct DiscoverResult {
    /// The pools, in order.
    pub pools: Vec<DiscoveredPool>,
    /// The directories that are no pools, in order, and why.
    pub skipped: Vec<(String, String)>,
}

impl Default for DiscoverResult {
    fn default() -> (r: DiscoverResult)
        ensures
            r.pools@.len() == 0,
            r.skipped@.len() == 0,
    {
        DiscoverResult { pools: Vec::new(), skipped: Vec::new() }
    }
}

// ---------- where pools are ----------

/// Where pools are kept by default.
pub fn user_pool_root(home: Option<&str>) -> (r: Option<String>)
    ensures
        match home {
            Some(h) => opt_view(r) == Some(join_spec(h@, ".treehouse"@)),
            None => r is None,
        },
{
    crate::env::default_pool_root(home)
}

/// Where an environment keeps pools.
pub fn user_pool_root_with_env<E: TreehouseEnv>(env: &E) -> (r: Option<String>)
    ensures
        opt_view(r) == env.root_view(),
{
    env.pool_root()
}

/// Where pools are kept by the settings of the user. A relative root means
/// nothing without a repository.
pub open spec fn user_root(
    root: Option<Seq<char>>,
    unset: Option<Seq<char>>,
    look: spec_fn(Seq<char>) -> Option<Seq<char>>,
) -> Option<Seq<char>> {
    match root {
        Some(text) if text.len() > 0 => {
            let given = expanded(text, look);
            if absolute(given) {
                Some(join_spec(given, ".treehouse"@))
            } else {
                None
            }
        },
        _ => unset,
    }
}

fn given_user_root<V: VarSource>(root: &str, vars: &V) -> (r: Option<String>)
    requires
        root@.len() > 0,
    ensures
        forall|unset: Option<Seq<char>>|
            opt_view(r) == #[trigger] user_root(Some(root@), unset, vars.value_view()),
{
    let given = expand_env(root, vars);
    if is_absolute(&given) {
        Some(join(&given, ".treehouse"))
    } else {
        None
    }
}

/// Where pools are kept by the settings of the user. `home` is the home
/// directory.
pub fn user_pool_root_with_config<V: VarSource>(
    user: &TreehouseConfig,
    home: Option<&str>,
    vars: &V,
) -> (r: Option<String>)
    ensures
        opt_view(r) == user_root(
            opt_view(user.root),
            match home {
                Some(h) => Some(join_spec(h@, ".treehouse"@)),
                None => None,
            },
            vars.value_view(),
        ),
{
    if let Some(root) = &user.root {
        if !root.as_str().is_empty() {
            return given_user_root(root, vars);
        }
    }
    user_pool_root(home)
}

/// Where an environment keeps pools by the settings of the user.
pub fn user_pool_root_with_config_and_env<E: TreehouseEnv>(user: &TreehouseConfig, env: &E) -> (r:
    Option<String>)
    ensures
        opt_view(r) == user_root(
            opt_view(user.root),
            env.root_view(),
            |name: Seq<char>| env.var_view(name),
        ),
{
    if let Some(root) = &user.root {
        if !root.as_str().is_empty() {
            let vars = EnvVars { env };
            let r = given_user_root(root, &vars);
            assert(vars.value_view() =~= (|name: Seq<char>| env.var_view(name)));
            return r;
        }
    }
    env.pool_root()
}

/// The settings of the user, without regard to any repository.
pub fn load_user_config_for_discovery(user: ConfigFile) -> (r: Result<TreehouseConfig, ConfigError>)
    ensures
        loads(ConfigFile::Absent, user, r),
{
    TreehouseConfig::load_global(user)
}

// ---------- order ----------

/// No path comes before the one before it.
pub open spec fn in_order(rs: Seq<Seq<Seq<char>>>) -> bool {
    forall|i: int, j: int|
        0 <= i < j < rs.len() ==> !row_less(#[trigger] rs[j], #[trigger] rs[i])
}

/// The paths in order.
pub fn sort_paths(v: &Vec<String>) -> (r: Vec<String>)
    ensures
        in_order(rows(r@)),
        forall|i: int, j: int|
            0 <= i < j < r@.len() ==> !row_less(
                comps((#[trigger] r@[j])@),
                comps((#[trigger] r@[i])@),
            ),
        views(r@).to_multiset() == views(v@).to_multiset(),
        r@.len() == v@.len(),
{
    let mut out: Vec<String> = Vec::new();
    let mut i: usize = 0;
    assert(views(out@) =~= views(v@).take(0));
    while i < v.len()
        invariant
            i <= v.len(),
            out@.len() == i,
            in_order(rows(out@)),
            views(out@).to_multiset() == views(v@).take(i as int).to_multiset(),
        decreases v.len() - i,
    {
        let p = v[i].clone();
        let ghost before = out@;
        let ghost rs = rows(before);
        let ghost r = comps(p@);
        let mut j: usize = out.len();
        while j > 0 && path_before(&p, &out[j - 1])
            invariant
                j <= out.len(),
                out@ == before,
                rs == rows(before),
                r == comps(p@),
                forall|k: int| j <= k < out.len() ==> row_less(r, #[trigger] rs[k]),
            decreases j,
        {
            assert(rs[j - 1] == comps(out@[j - 1]@));
            j -= 1;
        }
        proof {
            if j > 0 {
                assert(rs[j - 1] == comps(out@[j - 1]@));
            }
            assert forall|k: int| 0 <= k < j implies !row_less(r, #[trigger] rs[k]) by {
                if k < j - 1 {
                    assert(!row_less(rs[j - 1], rs[k]));
                    lemma_row_order(r, rs[k], rs[j - 1]);
                    lemma_row_order(rs[k], rs[j - 1], rs[k]);
                    if row_less(r, rs[k]) {
                        if rs[k] == rs[j - 1] {
                        } else {
                            assert(row_less(rs[k], rs[j - 1]));
                        }
                    }
                }
            }
        }
        out.insert(j, p);
        proof {
            let after = rows(out@);
            assert(after =~= rs.insert(j as int, r));
            assert forall|a: int, b: int| 0 <= a < b < after.len() implies !row_less(
                #[trigger] after[b],
                #[trigger] after[a],
            ) by {
                if b < j {
                    assert(after[a] == rs[a] && after[b] == rs[b]);
                } else if b == j {
                    assert(after[a] == rs[a]);
                } else if a < j {
                    assert(after[a] == rs[a] && after[b] == rs[b - 1]);
                } else if a == j {
                    assert(after[b] == rs[b - 1]);
                    lemma_row_order(r, rs[b - 1], r);
                } else {
                    assert(after[a] == rs[a - 1] && after[b] == rs[b - 1]);
                }
            }
            assert(views(out@) =~= views(before).insert(j as int, p@));
            vstd::seq_lib::to_multiset_insert(views(before), j as int, p@);
            assert(views(v@).take(i + 1) =~= views(v@).take(i as int).push(p@));
            vstd::seq_lib::to_multiset_build(views(v@).take(i as int), p@);
        }
        i += 1;
    }
    assert(views(v@).take(v.len() as int) =~= views(v@));
    proof {
        assert forall|i: int, j: int| 0 <= i < j < out@.len() implies !row_less(
            comps((#[trigger] out@[j])@),
            comps((#[trigger] out@[i])@),
        ) by {
            assert(rows(out@)[i] == comps(out@[i]@) && rows(out@)[j] == comps(out@[j]@));
        }
    }
    out
}

// ---------- pools among directories ----------

/// What was found in a directory that may be a pool: whether it has a state
/// file, and what reading that gave.
#[derive(Debug, PartialEq, Eq)]
pub struct PoolProbe {
    pub dir: String,
    pub state_exists: bool,
    pub state: Result<Vec<u8>, String>,
}

/// Why a directory is no pool; none where it is one.
pub open spec fn probe_reason(p: PoolProbe) -> Option<Seq<char>> {
    if !p.state_exists {
        Some("no treehouse-state.json"@)
    } else {
        match p.state {
            Err(e) => Some("cannot read state: "@ + e@),
            Ok(bytes) => if state_parsed(bytes@) is None {
                Some("state file does not parse"@)
            } else {
                None
            },
        }
    }
}

/// A pool by its directory and its name.
pub struct PoolView {
    pub dir: Seq<char>,
    pub name: Seq<char>,
}

/// The pools of a list.
pub open spec fn pool_views(v: Seq<DiscoveredPool>) -> Seq<PoolView> {
    v.map_values(|p: DiscoveredPool| PoolView { dir: p.dir@, name: p.name@ })
}

/// The directories of a list, and why they are no pools.
pub open spec fn skipped_views(v: Seq<(String, String)>) -> Seq<(Seq<char>, Seq<char>)> {
    v.map_values(|p: (String, String)| (p.0@, p.1@))
}

/// The name of the pool in a directory: the last name of its path.
pub open spec fn pool_of(dir: Seq<char>) -> PoolView {
    PoolView {
        dir,
        name: match file_name_spec(dir) {
            Some(n) => n,
            None => seq![],
        },
    }
}

/// The directories that nothing speaks against, in order.
pub open spec fn pools_by(dirs: Seq<Seq<char>>, reasons: Seq<Option<Seq<char>>>) -> Seq<PoolView>
    decreases dirs.len(),
{
    if dirs.len() == 0 {
        seq![]
    } else {
        let rest = pools_by(dirs.drop_last(), reasons);
        if reasons[dirs.len() - 1] is None {
            rest.push(pool_of(dirs.last()))
        } else {
            rest
        }
    }
}

/// The directories that something speaks against, in order, and what.
pub open spec fn skips_by(dirs: Seq<Seq<char>>, reasons: Seq<Option<Seq<char>>>) -> Seq<
    (Seq<char>, Seq<char>),
>
    decreases dirs.len(),
{
    if dirs.len() == 0 {
        seq![]
    } else {
        let rest = skips_by(dirs.drop_last(), reasons);
        match reasons[dirs.len() - 1] {
            Some(why) => rest.push((dirs.last(), why)),
            None => rest,
        }
    }
}

/// The views of a list of optional texts.
pub open spec fn reason_views(v: Seq<Option<String>>) -> Seq<Option<Seq<char>>> {
    v.map_values(|s: Option<String>| opt_view(s))
}

fn collect(dirs: &Vec<String>, reasons: &Vec<Option<String>>) -> (r: DiscoverResult)
    requires
        dirs@.len() == reasons@.len(),
    ensures
        pool_views(r.pools@) == pools_by(views(dirs@), reason_views(reasons@)),
        skipped_views(r.skipped@) == skips_by(views(dirs@), reason_views(reasons@)),
{
    let mut result = DiscoverResult::default();
    let ghost dv = views(dirs@);
    let ghost rv = reason_views(reasons@);
    let mut i: usize = 0;
    proof {
        assert(pool_views(result.pools@) =~= pools_by(dv.take(0), rv));
        assert(skipped_views(result.skipped@) =~= skips_by(dv.take(0), rv));
    }
    while i < dirs.len()
        invariant
            i <= dirs.len(),
            dirs@.len() == reasons@.len(),
            dv == views(dirs@),
            rv == reason_views(reasons@),
            pool_views(result.pools@) == pools_by(dv.take(i as int), rv),
            skipped_views(result.skipped@) == skips_by(dv.take(i as int), rv),
        decreases dirs.len() - i,
    {
        let ghost pools = result.pools@;
        let ghost skipped = result.skipped@;
        proof {
            assert(dv.take(i + 1).drop_last() =~= dv.take(i as int));
            assert(dv.take(i + 1).last() == dirs@[i as int]@);
            assert(rv[i as int] == opt_view(reasons@[i as int]));
        }
        match &reasons[i] {
            Some(why) => {
                result.skipped.push((dirs[i].clone(), why.clone()));
                assert(skipped_views(result.skipped@) =~= skipped_views(skipped).push(
                    (dirs@[i as int]@, why@),
                ));
            },
            None => {
                let name = match file_name(&dirs[i]) {
                    Some(n) => n,
                    None => String::new(),
                };
                result.pools.push(DiscoveredPool { dir: dirs[i].clone(), name });
                assert(pool_views(result.pools@) =~= pool_views(pools).push(
                    pool_of(dirs@[i as int]@),
                ));
            },
        }
        i += 1;
    }
    assert(dv.take(dirs.len() as int) =~= dv);
    result
}

/// The directories of the probes.
pub open spec fn probe_dirs(ps: Seq<PoolProbe>) -> Seq<Seq<char>> {
    ps.map_values(|p: PoolProbe| p.dir@)
}

/// Why the directories of the probes are no pools.
pub open spec fn probe_reasons(ps: Seq<PoolProbe>) -> Seq<Option<Seq<char>>> {
    ps.map_values(|p: PoolProbe| probe_reason(p))
}

fn reason_of(p: &PoolProbe) -> (r: Option<String>)
    ensures
        opt_view(r) == probe_reason(*p),
{
    if !p.state_exists {
        return Some("no treehouse-state.json".to_owned());
    }
    match &p.state {
        Err(e) => {
            let mut s = "cannot read state: ".to_owned();
            s.append(e);
            Some(s)
        },
        Ok(bytes) => match parse_state(bytes.as_slice()) {
            Ok(_) => None,
            Err(_) => Some("state file does not parse".to_owned()),
        },
    }
}

/// The pools among directories, by what was found in each of them.
pub fn discover_pools(probes: &Vec<PoolProbe>) -> (r: DiscoverResult)
    ensures
        pool_views(r.pools@) == pools_by(probe_dirs(probes@), probe_reasons(probes@)),
        skipped_views(r.skipped@) == skips_by(probe_dirs(probes@), probe_reasons(probes@)),
{
    let mut dirs: Vec<String> = Vec::new();
    let mut reasons: Vec<Option<String>> = Vec::new();
    let mut i: usize = 0;
    while i < probes.len()
        invariant
            i <= probes.len(),
            dirs@.len() == i,
            reasons@.len() == i,
            views(dirs@) =~= probe_dirs(probes@).take(i as int),
            reason_views(reasons@) =~= probe_reasons(probes@).take(i as int),
        decreases probes.len() - i,
    {
        let ghost d0 = dirs@;
        let ghost r0 = reasons@;
        let why = reason_of(&probes[i]);
        dirs.push(probes[i].dir.clone());
        reasons.push(why);
        assert(views(dirs@) =~= views(d0).push(probes@[i as int].dir@));
        assert(reason_views(reasons@) =~= reason_views(r0).push(probe_reason(probes@[i as int])));
        i += 1;
    }
    assert(probe_dirs(probes@).take(probes.len() as int) =~= probe_dirs(probes@));
    assert(probe_reasons(probes@).take(probes.len() as int) =~= probe_reasons(probes@));
    collect(&dirs, &reasons)
}

/// Why a directory of an environment is no pool; none where it is one. Its
/// state file is there, can be read as text, and parses.
pub open spec fn env_reason<E: TreehouseEnv>(env: &E, dir: Seq<char>) -> Option<Seq<char>> {
    let path = join_spec(dir, "treehouse-state.json"@);
    if !env.present_view(path) {
        Some("no treehouse-state.json"@)
    } else if env.text_view(path) is None {
        Some("cannot read state"@)
    } else {
        match env.file_view(path) {
            FileView::Content(bytes) => if state_parsed(bytes) is None {
                Some("state file does not parse"@)
            } else {
                None
            },
            _ => Some("cannot read state"@),
        }
    }
}

/// Why the directories of an environment are no pools.
pub open spec fn env_reasons<E: TreehouseEnv>(env: &E, dirs: Seq<Seq<char>>) -> Seq<
    Option<Seq<char>>,
> {
    dirs.map_values(|d: Seq<char>| env_reason(env, d))
}

fn env_reason_of<E: TreehouseEnv>(env: &E, dir: &str) -> (r: Option<String>)
    ensures
        opt_view(r) == env_reason(env, dir@),
{
    let path = State::state_file_path(dir);
    if !env.path_exists(&path) {
        return Some("no treehouse-state.json".to_owned());
    }
    match env.read_file(&path) {
        Err(_) => return Some("cannot read state".to_owned()),
        Ok(_) => {},
    }
    match env.read_bytes(&path) {
        Err(_) => Some("cannot read state".to_owned()),
        Ok(bytes) => match parse_state(bytes.as_slice()) {
            Ok(_) => None,
            Err(_) => Some("state file does not parse".to_owned()),
        },
    }
}

/// `dirs` are the entries of a directory, in order.
pub open spec fn listed_in_order<E: TreehouseEnv>(
    env: &E,
    root: Seq<char>,
    dirs: Seq<Seq<char>>,
) -> bool {
    &&& in_order(dirs.map_values(|d: Seq<char>| comps(d)))
    &&& exists|entries: Seq<Seq<char>>| #[trigger]
        env.lists(root, entries) && entries.to_multiset() == dirs.to_multiset()
}

/// The pools below the root in an environment, and why the other entries are
/// none. A root that cannot be listed has neither.
pub fn discover_pools_with_env<E: TreehouseEnv>(root: &str, env: &E) -> (r: DiscoverResult)
    ensures
        if env.listable(root@) {
            exists|dirs: Seq<Seq<char>>| #[trigger]
                listed_in_order(env, root@, dirs) && pool_views(r.pools@) == pools_by(
                    dirs,
                    env_reasons(env, dirs),
                ) && skipped_views(r.skipped@) == skips_by(dirs, env_reasons(env, dirs))
        } else {
            r.pools@.len() == 0 && r.skipped@.len() == 0
        },
{
    let listing = match env.list_dir(root) {
        Ok(v) => v,
        Err(_) => return DiscoverResult::default(),
    };
    let dirs = sort_paths(&listing);
    proof {
        assert(rows(dirs@) =~= views(dirs@).map_values(|d: Seq<char>| comps(d)));
        assert(env.lists(root@, views(listing@)));
    }
    let ghost all = env_reasons(env, views(dirs@));
    let mut reasons: Vec<Option<String>> = Vec::new();
    let mut i: usize = 0;
    while i < dirs.len()
        invariant
            i <= dirs.len(),
            reasons@.len() == i,
            all == env_reasons(env, views(dirs@)),
            reason_views(reasons@) =~= all.take(i as int),
        decreases dirs.len() - i,
    {
        let ghost r0 = reasons@;
        let why = env_reason_of(env, &dirs[i]);
        reasons.push(why);
        proof {
            assert(reason_views(reasons@) =~= reason_views(r0).push(opt_view(why)));
            assert(views(dirs@)[i as int] == dirs@[i as int]@);
        }
        i += 1;
    }
    assert(all.take(dirs.len() as int) =~= all);
    let r = collect(&dirs, &reasons);
    assert(listed_in_order(env, root@, views(dirs@)));
    r
}

// ---------- sweeping ----------

/// The report of a pool that a sweep passes over.
pub fn skipped_pool_line(dir: &str, error: Option<&str>) -> (r: String)
    ensures
        r@ == "🌳 skipping pool "@ + dir@ + ": "@ + match error {
            Some(e) => e@,
            None => "cannot open"@,
        },
{
    let mut s = "🌳 skipping pool ".to_owned();
    s.append(dir);
    s.append(": ");
    match error {
        Some(e) => s.append(e),
        None => s.append("cannot open"),
    }
    s
}

/// The results of pruning several pools, put together: first one, then the
/// next.
pub open spec fn all_pruned(rs: Seq<(String, PruneResult)>) -> Seq<PruneWorktree>
    decreases rs.len(),
{
    if rs.len() == 0 {
        seq![]
    } else {
        all_pruned(rs.drop_last()) + rs.last().1.pruned@
    }
}

pub open spec fn all_prune_skips(rs: Seq<(String, PruneResult)>) -> Seq<PruneSkipped>
    decreases rs.len(),
{
    if rs.len() == 0 {
        seq![]
    } else {
        all_prune_skips(rs.drop_last()) + rs.last().1.skipped@
    }
}

pub open spec fn all_prune_errors(rs: Seq<(String, PruneResult)>) -> Seq<CleanupError>
    decreases rs.len(),
{
    if rs.len() == 0 {
        seq![]
    } else {
        all_prune_errors(rs.drop_last()) + rs.last().1.errors@
    }
}

/// The candidates of all pools, each with its pool before its name.
pub open spec fn all_prune_candidates(rs: Seq<(String, PruneResult)>) -> Seq<
    crate::prune::PruneWorktreeView,
>
    decreases rs.len(),
{
    if rs.len() == 0 {
        seq![]
    } else {
        all_prune_candidates(rs.drop_last()) + in_pool(rs.last().0@, rs.last().1.candidates@)
    }
}

/// The candidates of one pool, each with the pool before its name.
pub open spec fn in_pool(dir: Seq<char>, ws: Seq<PruneWorktree>) -> Seq<
    crate::prune::PruneWorktreeView,
> {
    ws.map_values(
        |w: PruneWorktree| crate::prune::PruneWorktreeView { name: dir + "/"@ + w.name@, ..w@ },
    )
}

/// The views of a list of worktrees.
pub open spec fn prune_views(ws: Seq<PruneWorktree>) -> Seq<crate::prune::PruneWorktreeView> {
    ws.map_values(|w: PruneWorktree| w@)
}

/// The size of the candidates of all pools.
pub open spec fn all_candidate_bytes(rs: Seq<(String, PruneResult)>) -> nat
    decreases rs.len(),
{
    if rs.len() == 0 {
        0
    } else {
        all_candidate_bytes(rs.drop_last()) + prune_bytes(rs.last().1.candidates@)
    }
}

/// The size of what was pruned in all pools.
pub open spec fn all_pruned_bytes(rs: Seq<(String, PruneResult)>) -> nat
    decreases rs.len(),
{
    if rs.len() == 0 {
        0
    } else {
        all_pruned_bytes(rs.drop_last()) + prune_bytes(rs.last().1.pruned@)
    }
}

proof fn lemma_all_bytes_prefix(rs: Seq<(String, PruneResult)>, i: int)
    requires
        0 <= i <= rs.len(),
    ensures
        all_candidate_bytes(rs.take(i)) <= all_candidate_bytes(rs),
        all_pruned_bytes(rs.take(i)) <= all_pruned_bytes(rs),
    decreases rs.len() - i,
{
    if i == rs.len() {
        assert(rs.take(i) =~= rs);
    } else {
        lemma_all_bytes_prefix(rs, i + 1);
        assert(rs.take(i + 1).drop_last() =~= rs.take(i));
    }
}

fn push_in_pool(out: &mut Vec<PruneWorktree>, dir: &str, ws: &Vec<PruneWorktree>)
    ensures
        prune_views(final(out)@) == prune_views(old(out)@) + in_pool(dir@, ws@),
{
    let ghost before = prune_views(out@);
    let ghost more = in_pool(dir@, ws@);
    let mut i: usize = 0;
    assert(before + more.take(0) =~= before);
    while i < ws.len()
        invariant
            i <= ws.len(),
            more == in_pool(dir@, ws@),
            prune_views(out@) == before + more.take(i as int),
        decreases ws.len() - i,
    {
        let ghost o0 = out@;
        let mut name = dir.to_owned();
        name.append("/");
        name.append(&ws[i].name);
        let mut w = ws[i].copy();
        w.name = name;
        assert(more[i as int] == w@);
        out.push(w);
        assert(prune_views(out@) =~= prune_views(o0).push(w@));
        assert(prune_views(out@) =~= before + more.take(i + 1));
        i += 1;
    }
    assert(more.take(ws.len() as int) =~= more);
}

/// The results of pruning several pools as one. It is a dry run if the first
/// of them was, or if there is none.
pub fn merge_prune_results(results: Vec<(String, PruneResult)>) -> (r: PruneResult)
    requires
        all_candidate_bytes(results@) <= u64::MAX,
        all_pruned_bytes(results@) <= u64::MAX,
    ensures
        r.dry_run == (results@.len() == 0 || results@[0].1.dry_run),
        prune_views(r.candidates@) == all_prune_candidates(results@),
        r.pruned@ == all_pruned(results@),
        r.skipped@ == all_prune_skips(results@),
        r.errors@ == all_prune_errors(results@),
        r.reclaimable_bytes == all_candidate_bytes(results@),
        r.freed_bytes == all_pruned_bytes(results@),
{
    let mut out = PruneResult::default();
    out.dry_run = results.len() == 0 || results[0].1.dry_run;
    let ghost dry_run = out.dry_run;
    let ghost rs = results@;
    let mut i: usize = 0;
    proof {
        assert(rs.take(0) =~= seq![]);
        assert(prune_views(out.candidates@) =~= seq![]);
    }
    while i < results.len()
        invariant
            i <= results.len(),
            rs == results@,
            out.dry_run == dry_run,
            all_candidate_bytes(rs) <= u64::MAX,
            all_pruned_bytes(rs) <= u64::MAX,
            prune_views(out.candidates@) == all_prune_candidates(rs.take(i as int)),
            out.pruned@ =~= all_pruned(rs.take(i as int)),
            out.skipped@ =~= all_prune_skips(rs.take(i as int)),
            out.errors@ =~= all_prune_errors(rs.take(i as int)),
            out.reclaimable_bytes == all_candidate_bytes(rs.take(i as int)),
            out.freed_bytes == all_pruned_bytes(rs.take(i as int)),
        decreases results.len() - i,
    {
        proof {
            assert(rs.take(i + 1).drop_last() =~= rs.take(i as int));
            assert(rs.take(i + 1).last() == rs[i as int]);
            lemma_all_bytes_prefix(rs, i + 1);
        }
        let one = &results[i];
        push_in_pool(&mut out.candidates, &one.0, &one.1.candidates);
        crate::copies::extend_with(&mut out.pruned, &one.1.pruned);
        crate::copies::extend_with(&mut out.skipped, &one.1.skipped);
        crate::copies::extend_with(&mut out.errors, &one.1.errors);
        let c: u64 = crate::prune::sum_prune_bytes(&one.1.candidates);
        let p: u64 = crate::prune::sum_prune_bytes(&one.1.pruned);
        out.reclaimable_bytes = out.reclaimable_bytes + c;
        out.freed_bytes = out.freed_bytes + p;
        i += 1;
    }
    assert(rs.take(results.len() as int) =~= rs);
    out
}

/// The results of reclaiming in several pools, put together: first one, then
/// the next.
pub open spec fn all_reclaimed(rs: Seq<(String, GcResult)>) -> Seq<GcWorktree>
    decreases rs.len(),
{
    if rs.len() == 0 {
        seq![]
    } else {
        all_reclaimed(rs.drop_last()) + rs.last().1.reclaimed@
    }
}

pub open spec fn all_gc_skips(rs: Seq<(String, GcResult)>) -> Seq<GcSkipped>
    decreases rs.len(),
{
    if rs.len() == 0 {
        seq![]
    } else {
        all_gc_skips(rs.drop_last()) + rs.last().1.skipped@
    }
}

pub open spec fn all_gc_errors(rs: Seq<(String, GcResult)>) -> Seq<CleanupError>
    decreases rs.len(),
{
    if rs.len() == 0 {
        seq![]
    } else {
        all_gc_errors(rs.drop_last()) + rs.last().1.errors@
    }
}

/// The candidates of all pools, each with its pool before its name.
pub open spec fn all_gc_candidates(rs: Seq<(String, GcResult)>) -> Seq<
    crate::gc::GcWorktreeView,
>
    decreases rs.len(),
{
    if rs.len() == 0 {
        seq![]
    } else {
        all_gc_candidates(rs.drop_last()) + gc_in_pool(rs.last().0@, rs.last().1.candidates@)
    }
}

/// The candidates of one pool, each with the pool before its name.
pub open spec fn gc_in_pool(dir: Seq<char>, ws: Seq<GcWorktree>) -> Seq<
    crate::gc::GcWorktreeView,
> {
    ws.map_values(
        |w: GcWorktree| crate::gc::GcWorktreeView { name: dir + "/"@ + w.name@, ..w@ },
    )
}

/// The views of a list of worktrees.
pub open spec fn gc_views(ws: Seq<GcWorktree>) -> Seq<crate::gc::GcWorktreeView> {
    ws.map_values(|w: GcWorktree| w@)
}

/// The size of the candidates of all pools.
pub open spec fn all_gc_candidate_bytes(rs: Seq<(String, GcResult)>) -> nat
    decreases rs.len(),
{
    if rs.len() == 0 {
        0
    } else {
        all_gc_candidate_bytes(rs.drop_last()) + gc_bytes(rs.last().1.candidates@)
    }
}

/// The size of what was reclaimed in all pools.
pub open spec fn all_reclaimed_bytes(rs: Seq<(String, GcResult)>) -> nat
    decreases rs.len(),
{
    if rs.len() == 0 {
        0
    } else {
        all_reclaimed_bytes(rs.drop_last()) + gc_bytes(rs.last().1.reclaimed@)
    }
}

proof fn lemma_all_gc_bytes_prefix(rs: Seq<(String, GcResult)>, i: int)
    requires
        0 <= i <= rs.len(),
    ensures
        all_gc_candidate_bytes(rs.take(i)) <= all_gc_candidate_bytes(rs),
        all_reclaimed_bytes(rs.take(i)) <= all_reclaimed_bytes(rs),
    decreases rs.len() - i,
{
    if i == rs.len() {
        assert(rs.take(i) =~= rs);
    } else {
        lemma_all_gc_bytes_prefix(rs, i + 1);
        assert(rs.take(i + 1).drop_last() =~= rs.take(i));
    }
}

fn push_gc_in_pool(out: &mut Vec<GcWorktree>, dir: &str, ws: &Vec<GcWorktree>)
    ensures
        gc_views(final(out)@) == gc_views(old(out)@) + gc_in_pool(dir@, ws@),
{
    let ghost before = gc_views(out@);
    let ghost more = gc_in_pool(dir@, ws@);
    let mut i: usize = 0;
    assert(before + more.take(0) =~= before);
    while i < ws.len()
        invariant
            i <= ws.len(),
            more == gc_in_pool(dir@, ws@),
            gc_views(out@) == before + more.take(i as int),
        decreases ws.len() - i,
    {
        let ghost o0 = out@;
        let mut name = dir.to_owned();
        name.append("/");
        name.append(&ws[i].name);
        let mut w = ws[i].copy();
        w.name = name;
        assert(more[i as int] == w@);
        out.push(w);
        assert(gc_views(out@) =~= gc_views(o0).push(w@));
        assert(gc_views(out@) =~= before + more.take(i + 1));
        i += 1;
    }
    assert(more.take(ws.len() as int) =~= more);
}

/// The results of reclaiming in several pools as one. It is a dry run if the first
/// of them was, or if there is none.
pub fn merge_gc_results(results: Vec<(String, GcResult)>) -> (r: GcResult)
    requires
        all_gc_candidate_bytes(results@) <= u64::MAX,
        all_reclaimed_bytes(results@) <= u64::MAX,
    ensures
        r.dry_run == (results@.len() == 0 || results@[0].1.dry_run),
        gc_views(r.candidates@) == all_gc_candidates(results@),
        r.reclaimed@ == all_reclaimed(results@),
        r.skipped@ == all_gc_skips(results@),
        r.errors@ == all_gc_errors(results@),
        r.reclaimable_bytes == all_gc_candidate_bytes(results@),
        r.freed_bytes == all_reclaimed_bytes(results@),
{
    let mut out = GcResult::default();
    out.dry_run = results.len() == 0 || results[0].1.dry_run;
    let ghost dry_run = out.dry_run;
    let ghost rs = results@;
    let mut i: usize = 0;
    proof {
        assert(rs.take(0) =~= seq![]);
        assert(gc_views(out.candidates@) =~= seq![]);
    }
    while i < results.len()
        invariant
            i <= results.len(),
            rs == results@,
            out.dry_run == dry_run,
            all_gc_candidate_bytes(rs) <= u64::MAX,
            all_reclaimed_bytes(rs) <= u64::MAX,
            gc_views(out.candidates@) == all_gc_candidates(rs.take(i as int)),
            out.reclaimed@ =~= all_reclaimed(rs.take(i as int)),
            out.skipped@ =~= all_gc_skips(rs.take(i as int)),
            out.errors@ =~= all_gc_errors(rs.take(i as int)),
            out.reclaimable_bytes == all_gc_candidate_bytes(rs.take(i as int)),
            out.freed_bytes == all_reclaimed_bytes(rs.take(i as int)),
        decreases results.len() - i,
    {
        proof {
            assert(rs.take(i + 1).drop_last() =~= rs.take(i as int));
            assert(rs.take(i + 1).last() == rs[i as int]);
            lemma_all_gc_bytes_prefix(rs, i + 1);
        }
        let one = &results[i];
        push_gc_in_pool(&mut out.candidates, &one.0, &one.1.candidates);
        crate::copies::extend_with(&mut out.reclaimed, &one.1.reclaimed);
        crate::copies::extend_with(&mut out.skipped, &one.1.skipped);
        crate::copies::extend_with(&mut out.errors, &one.1.errors);
        let c: u64 = crate::gc::sum_gc_bytes(&one.1.candidates);
        let p: u64 = crate::gc::sum_gc_bytes(&one.1.reclaimed);
        out.reclaimable_bytes = out.reclaimable_bytes + c;
        out.freed_bytes = out.freed_bytes + p;
        i += 1;
    }
    assert(rs.take(results.len() as int) =~= rs);
    out
}

// ---------- laws ----------

/// A failure in one pool is reported, whatever happens in the others, and so
/// is everything that was pruned there.
pub proof fn law_merged_prune_keeps_every_pool(rs: Seq<(String, PruneResult)>, i: int, j: int)
    requires
        0 <= i < rs.len(),
    ensures
        0 <= j < rs[i].1.errors@.len() ==> all_prune_errors(rs).contains(rs[i].1.errors@[j]),
        0 <= j < rs[i].1.pruned@.len() ==> all_pruned(rs).contains(rs[i].1.pruned@[j]),
        0 <= j < rs[i].1.skipped@.len() ==> all_prune_skips(rs).contains(rs[i].1.skipped@[j]),
    decreases rs.len(),
{
    let front = rs.drop_last();
    let e = all_prune_errors(front);
    let p = all_pruned(front);
    let k = all_prune_skips(front);
    if i < rs.len() - 1 {
        law_merged_prune_keeps_every_pool(front, i, j);
        assert(front[i] == rs[i]);
        if 0 <= j < rs[i].1.errors@.len() {
            let n = e.index_of(rs[i].1.errors@[j]);
            assert(all_prune_errors(rs)[n] == rs[i].1.errors@[j]);
        }
        if 0 <= j < rs[i].1.pruned@.len() {
            let n = p.index_of(rs[i].1.pruned@[j]);
            assert(all_pruned(rs)[n] == rs[i].1.pruned@[j]);
        }
        if 0 <= j < rs[i].1.skipped@.len() {
            let n = k.index_of(rs[i].1.skipped@[j]);
            assert(all_prune_skips(rs)[n] == rs[i].1.skipped@[j]);
        }
    } else {
        if 0 <= j < rs[i].1.errors@.len() {
            assert(all_prune_errors(rs)[e.len() + j] == rs[i].1.errors@[j]);
        }
        if 0 <= j < rs[i].1.pruned@.len() {
            assert(all_pruned(rs)[p.len() + j] == rs[i].1.pruned@[j]);
        }
        if 0 <= j < rs[i].1.skipped@.len() {
            assert(all_prune_skips(rs)[k.len() + j] == rs[i].1.skipped@[j]);
        }
    }
}

/// A failure in one pool is reported, whatever happens in the others, and so
/// is everything that was reclaimed there.
pub proof fn law_merged_gc_keeps_every_pool(rs: Seq<(String, GcResult)>, i: int, j: int)
    requires
        0 <= i < rs.len(),
    ensures
        0 <= j < rs[i].1.errors@.len() ==> all_gc_errors(rs).contains(rs[i].1.errors@[j]),
        0 <= j < rs[i].1.reclaimed@.len() ==> all_reclaimed(rs).contains(rs[i].1.reclaimed@[j]),
        0 <= j < rs[i].1.skipped@.len() ==> all_gc_skips(rs).contains(rs[i].1.skipped@[j]),
    decreases rs.len(),
{
    let front = rs.drop_last();
    let e = all_gc_errors(front);
    let p = all_reclaimed(front);
    let k = all_gc_skips(front);
    if i < rs.len() - 1 {
        law_merged_gc_keeps_every_pool(front, i, j);
        assert(front[i] == rs[i]);
        if 0 <= j < rs[i].1.errors@.len() {
            let n = e.index_of(rs[i].1.errors@[j]);
            assert(all_gc_errors(rs)[n] == rs[i].1.errors@[j]);
        }
        if 0 <= j < rs[i].1.reclaimed@.len() {
            let n = p.index_of(rs[i].1.reclaimed@[j]);
            assert(all_reclaimed(rs)[n] == rs[i].1.reclaimed@[j]);
        }
        if 0 <= j < rs[i].1.skipped@.len() {
            let n = k.index_of(rs[i].1.skipped@[j]);
            assert(all_gc_skips(rs)[n] == rs[i].1.skipped@[j]);
        }
    } else {
        if 0 <= j < rs[i].1.errors@.len() {
            assert(all_gc_errors(rs)[e.len() + j] == rs[i].1.errors@[j]);
        }
        if 0 <= j < rs[i].1.reclaimed@.len() {
            assert(all_reclaimed(rs)[p.len() + j] == rs[i].1.reclaimed@[j]);
        }
        if 0 <= j < rs[i].1.skipped@.len() {
            assert(all_gc_skips(rs)[k.len() + j] == rs[i].1.skipped@[j]);
        }
    }
}

/// Every directory that is looked at is found to be a pool or is passed over
/// with its reason.
pub proof fn law_pool_or_skipped(dirs: Seq<Seq<char>>, reasons: Seq<Option<Seq<char>>>, i: int)
    requires
        dirs.len() <= reasons.len(),
        0 <= i < dirs.len(),
    ensures
        pools_by(dirs, reasons).len() + skips_by(dirs, reasons).len() == dirs.len(),
        match reasons[i] {
            None => pools_by(dirs, reasons).contains(pool_of(dirs[i])),
            Some(why) => skips_by(dirs, reasons).contains((dirs[i], why)),
        },
    decreases dirs.len(),
{
    let front = dirs.drop_last();
    let ps = pools_by(front, reasons);
    let ks = skips_by(front, reasons);
    if front.len() > 0 {
        law_pool_or_skipped(front, reasons, if i < front.len() { i } else { 0 });
    }
    if i < front.len() {
        assert(front[i] == dirs[i]);
        match reasons[i] {
            None => {
                let k = ps.index_of(pool_of(dirs[i]));
                assert(pools_by(dirs, reasons)[k] == pool_of(dirs[i]));
            },
            Some(why) => {
                let k = ks.index_of((dirs[i], why));
                assert(skips_by(dirs, reasons)[k] == (dirs[i], why));
            },
        }
    } else {
        match reasons[i] {
            None => {
                assert(pools_by(dirs, reasons)[ps.len() as int] == pool_of(dirs[i]));
            },
            Some(why) => {
                assert(skips_by(dirs, reasons)[ks.len() as int] == (dirs[i], why));
            },
        }
    }
}

/// The pools that are found are the directories that nothing speaks against,
/// each under the last name of its path; the others are passed over, each with
/// what speaks against it. Both come in order.
pub proof fn law_found_exactly(dirs: Seq<Seq<char>>, reasons: Seq<Option<Seq<char>>>)
    requires
        dirs.len() <= reasons.len(),
    ensures
        pools_by(dirs, reasons) == Seq::new(dirs.len(), |i: int| i).filter(
            |i: int| reasons[i] is None,
        ).map_values(|i: int| pool_of(dirs[i])),
        skips_by(dirs, reasons) == Seq::new(dirs.len(), |i: int| i).filter(
            |i: int| reasons[i] is Some,
        ).map_values(|i: int| (dirs[i], reasons[i]->0)),
{
    lemma_found(dirs, reasons, dirs.len());
    assert(dirs.take(dirs.len() as int) =~= dirs);
}

proof fn lemma_found(dirs: Seq<Seq<char>>, reasons: Seq<Option<Seq<char>>>, n: nat)
    requires
        n <= dirs.len() <= reasons.len(),
    ensures
        pools_by(dirs.take(n as int), reasons) == Seq::new(n, |i: int| i).filter(
            |i: int| reasons[i] is None,
        ).map_values(|i: int| pool_of(dirs[i])),
        skips_by(dirs.take(n as int), reasons) == Seq::new(n, |i: int| i).filter(
            |i: int| reasons[i] is Some,
        ).map_values(|i: int| (dirs[i], reasons[i]->0)),
    decreases n,
{
    reveal(Seq::filter);
    let here = dirs.take(n as int);
    let is = Seq::new(n, |i: int| i);
    if n > 0 {
        lemma_found(dirs, reasons, (n - 1) as nat);
        assert(here.drop_last() =~= dirs.take(n - 1));
        assert(is.drop_last() =~= Seq::new((n - 1) as nat, |i: int| i));
        assert(here.last() == dirs[n - 1]);
        assert(is.last() == n - 1);
    }
    assert(pools_by(here, reasons) =~= is.filter(|i: int| reasons[i] is None).map_values(
        |i: int| pool_of(dirs[i]),
    ));
    assert(skips_by(here, reasons) =~= is.filter(|i: int| reasons[i] is Some).map_values(
        |i: int| (dirs[i], reasons[i]->0),
    ));
}

/// A directory is a pool exactly if its state file is there, can be read, and
/// parses.
pub proof fn law_pool_has_a_state_that_parses(p: PoolProbe)
    ensures
        probe_reason(p) is None <==> p.state_exists && (p.state matches Ok(bytes) && state_parsed(
            bytes@,
        ) is Some),
{
}

/// A directory of an environment is a pool exactly if its state file is there,
/// can be read as text, and parses.
pub proof fn law_env_pool_has_a_state_that_parses<E: TreehouseEnv>(env: &E, dir: Seq<char>)
    ensures
        ({
            let path = join_spec(dir, "treehouse-state.json"@);
            env_reason(env, dir) is None <==> env.present_view(path) && env.text_view(path) is Some
                && (env.file_view(path) matches FileView::Content(bytes) && state_parsed(bytes) is Some)
        }),
{
}

/// A pool is named by the last name of its directory.
pub proof fn law_pool_is_named_by_its_directory(root: Seq<char>, name: Seq<char>)
    requires
        root.len() > 0,
        crate::path::is_name(name),
        name != crate::path::up_comp(),
    ensures
        pool_of(join_spec(root, name)).name == name,
        pool_of(join_spec(root, name)).dir == join_spec(root, name),
{
    crate::path::law_joined_name_is_last(root, name, seq!['/']);
}

/// A root that the user sets holds the pools in `.treehouse` below it, where it
/// is absolute; a relative one means nothing here, and without one the default
/// stands.
pub proof fn law_user_root_is_absolute(
    root: Seq<char>,
    unset: Option<Seq<char>>,
    look: spec_fn(Seq<char>) -> Option<Seq<char>>,
)
    requires
        root.len() > 0,
    ensures
        absolute(expanded(root, look)) ==> user_root(Some(root), unset, look) == Some(
            join_spec(expanded(root, look), ".treehouse"@),
        ),
        !absolute(expanded(root, look)) ==> user_root(Some(root), unset, look) is None,
        user_root(None, unset, look) == unset,
        user_root(Some(seq![]), unset, look) == unset,
{
}

/// The results of several pools are put together without loss: the lists one
/// after the other, and the sizes summed up.
pub proof fn law_merged_prune_is_the_whole(rs: Seq<(String, PruneResult)>)
    ensures
        all_pruned(rs) == rs.map_values(|r: (String, PruneResult)| r.1.pruned@).flatten_alt(),
        all_prune_skips(rs) == rs.map_values(
            |r: (String, PruneResult)| r.1.skipped@,
        ).flatten_alt(),
        all_prune_errors(rs) == rs.map_values(|r: (String, PruneResult)| r.1.errors@).flatten_alt(),
        all_prune_candidates(rs) == rs.map_values(
            |r: (String, PruneResult)| in_pool(r.0@, r.1.candidates@),
        ).flatten_alt(),
        all_pruned_bytes(rs) == prune_bytes(all_pruned(rs)),
        all_candidate_bytes(rs) == prune_bytes(
            rs.map_values(|r: (String, PruneResult)| r.1.candidates@).flatten_alt(),
        ),
    decreases rs.len(),
{
    let a = rs.map_values(|r: (String, PruneResult)| r.1.pruned@);
    let b = rs.map_values(|r: (String, PruneResult)| r.1.skipped@);
    let c = rs.map_values(|r: (String, PruneResult)| r.1.errors@);
    let d = rs.map_values(|r: (String, PruneResult)| in_pool(r.0@, r.1.candidates@));
    let e = rs.map_values(|r: (String, PruneResult)| r.1.candidates@);
    if rs.len() > 0 {
        let front = rs.drop_last();
        law_merged_prune_is_the_whole(front);
        assert(a.drop_last() =~= front.map_values(|r: (String, PruneResult)| r.1.pruned@));
        assert(b.drop_last() =~= front.map_values(|r: (String, PruneResult)| r.1.skipped@));
        assert(c.drop_last() =~= front.map_values(|r: (String, PruneResult)| r.1.errors@));
        assert(d.drop_last() =~= front.map_values(
            |r: (String, PruneResult)| in_pool(r.0@, r.1.candidates@),
        ));
        assert(e.drop_last() =~= front.map_values(|r: (String, PruneResult)| r.1.candidates@));
        crate::prune::law_prune_sizes_add_up(
            all_pruned(front),
            rs.last().1.pruned@,
            arbitrary(),
        );
        crate::prune::law_prune_sizes_add_up(
            e.drop_last().flatten_alt(),
            rs.last().1.candidates@,
            arbitrary(),
        );
    }
}

/// A candidate of a pool is named with its pool before it, and is otherwise as
/// the pool had it.
pub proof fn law_merged_candidates_name_their_pool(
    dir: Seq<char>,
    ws: Seq<PruneWorktree>,
    gs: Seq<GcWorktree>,
    i: int,
)
    ensures
        in_pool(dir, ws).len() == ws.len(),
        0 <= i < ws.len() ==> in_pool(dir, ws)[i].name == dir + "/"@ + ws[i].name@ && in_pool(
            dir,
            ws,
        )[i].path == ws[i].path@ && in_pool(dir, ws)[i].bytes == ws[i].bytes,
        gc_in_pool(dir, gs).len() == gs.len(),
        0 <= i < gs.len() ==> gc_in_pool(dir, gs)[i].name == dir + "/"@ + gs[i].name@ && gc_in_pool(
            dir,
            gs,
        )[i].path == gs[i].path@ && gc_in_pool(dir, gs)[i].bytes == gs[i].bytes,
{
}

/// The results of reclaiming in several pools are put together without loss:
/// the lists one after the other, and the sizes summed up.
pub proof fn law_merged_gc_is_the_whole(rs: Seq<(String, GcResult)>)
    ensures
        all_reclaimed(rs) == rs.map_values(|r: (String, GcResult)| r.1.reclaimed@).flatten_alt(),
        all_gc_skips(rs) == rs.map_values(|r: (String, GcResult)| r.1.skipped@).flatten_alt(),
        all_gc_errors(rs) == rs.map_values(|r: (String, GcResult)| r.1.errors@).flatten_alt(),
        all_gc_candidates(rs) == rs.map_values(
            |r: (String, GcResult)| gc_in_pool(r.0@, r.1.candidates@),
        ).flatten_alt(),
        all_reclaimed_bytes(rs) == gc_bytes(all_reclaimed(rs)),
        all_gc_candidate_bytes(rs) == gc_bytes(
            rs.map_values(|r: (String, GcResult)| r.1.candidates@).flatten_alt(),
        ),
    decreases rs.len(),
{
    let a = rs.map_values(|r: (String, GcResult)| r.1.reclaimed@);
    let b = rs.map_values(|r: (String, GcResult)| r.1.skipped@);
    let c = rs.map_values(|r: (String, GcResult)| r.1.errors@);
    let d = rs.map_values(|r: (String, GcResult)| gc_in_pool(r.0@, r.1.candidates@));
    let e = rs.map_values(|r: (String, GcResult)| r.1.candidates@);
    if rs.len() > 0 {
        let front = rs.drop_last();
        law_merged_gc_is_the_whole(front);
        assert(a.drop_last() =~= front.map_values(|r: (String, GcResult)| r.1.reclaimed@));
        assert(b.drop_last() =~= front.map_values(|r: (String, GcResult)| r.1.skipped@));
        assert(c.drop_last() =~= front.map_values(|r: (String, GcResult)| r.1.errors@));
        assert(d.drop_last() =~= front.map_values(
            |r: (String, GcResult)| gc_in_pool(r.0@, r.1.candidates@),
        ));
        assert(e.drop_last() =~= front.map_values(|r: (String, GcResult)| r.1.candidates@));
        crate::gc::law_gc_sizes_add_up(all_reclaimed(front), rs.last().1.reclaimed@, arbitrary());
        crate::gc::law_gc_sizes_add_up(
            e.drop_last().flatten_alt(),
            rs.last().1.candidates@,
            arbitrary(),
        );
    }
}

/// A directory that is no pool says why: it has no state file, the file cannot
/// be read, or it does not parse.
pub proof fn law_no_pool_says_why(p: PoolProbe)
    ensures
        !p.state_exists ==> probe_reason(p) == Some("no treehouse-state.json"@),
        p.state_exists ==> (p.state matches Err(e) ==> probe_reason(p) == Some(
            "cannot read state: "@ + e@,
        )),
        p.state_exists ==> (p.state matches Ok(bytes) ==> state_parsed(bytes@) is None ==> probe_reason(
            p,
        ) == Some("state file does not parse"@)),
{
}

/// What is looked at in an environment is a whole listing of the root, in order.
pub proof fn law_whole_listing_is_looked_at<E: TreehouseEnv>(
    env: &E,
    root: Seq<char>,
    dirs: Seq<Seq<char>>,
)
    requires
        listed_in_order(env, root, dirs),
    ensures
        forall|i: int, j: int|
            0 <= i < j < dirs.len() ==> !row_less(
                comps(#[trigger] dirs[j]),
                comps(#[trigger] dirs[i]),
            ),
        exists|entries: Seq<Seq<char>>| #[trigger]
            env.lists(root, entries) && entries.to_multiset() == dirs.to_multiset(),
{
    let rs = dirs.map_values(|d: Seq<char>| comps(d));
    assert forall|i: int, j: int| 0 <= i < j < dirs.len() implies !row_less(
        comps(#[trigger] dirs[j]),
        comps(#[trigger] dirs[i]),
    ) by {
        assert(rs[i] == comps(dirs[i]) && rs[j] == comps(dirs[j]));
    }
}

} // verus!
