//! Configuration, and where it puts the pools.
//!
//! The configuration of a repository wins for the settings that are safe to
//! take from a repository. Hooks come from the configuration of the user
//! alone. Pools go below `.treehouse`: in the home directory where no root is
//! set, in the given root otherwise, which is taken relative to the
//! repository unless it is absolute.

use vstd::prelude::*;
use vstd::string::*;

use crate::env::TreehouseEnv;
use crate::git::{sha256, short_hash};
use crate::path::{absolute, file_name, file_name_spec, is_absolute, join, join_spec};
use crate::text::{
    chars_of, copy_list, copy_opt, first_of, hex, lemma_first_of, lemma_first_of_unique,
    opt_str_view, opt_view, quote, quoted, same_text,
};

verus! {

/// Commands that run when a worktree is created and before it is destroyed.
#[derive(Clone, Debug, PartialEq, Eq)]
pub struct Hooks {
    pub post_create: Vec<String>,
    pub pre_destroy: Vec<String>,
}

impl Default for Hooks {
    fn default() -> (r: Hooks)
        ensures
            r.post_create@.len() == 0,
            r.pre_destroy@.len() == 0,
    {
        Hooks { post_create: Vec::new(), pre_destroy: Vec::new() }
    }
}

impl Hooks {
    /// There is no command.
    pub open spec fn none(self) -> bool {
        self.post_create@.len() == 0 && self.pre_destroy@.len() == 0
    }

    /// Whether there is no command.
    pub fn is_empty(&self) -> (r: bool)
        ensures
            r == self.none(),
    {
        self.post_create.len() == 0 && self.pre_destroy.len() == 0
    }

    /// The same commands.
    pub open spec fn same(self, other: Hooks) -> bool {
        self.post_create@ == other.post_create@ && self.pre_destroy@ == other.pre_destroy@
    }

    /// A copy.
    pub fn copy(&self) -> (r: Hooks)
        ensures
            r.same(*self),
    {
        Hooks {
            post_create: copy_list(&self.post_create),
            pre_destroy: copy_list(&self.pre_destroy),
        }
    }
}

/// The settings of a pool.
#[derive(Clone, Debug, PartialEq, Eq)]
pub struct TreehouseConfig {
    pub max_trees: u32,
    pub root: Option<String>,
    pub hooks: Hooks,
    /// How many seconds the lease of a run lasts by default.
    pub lease_ttl_secs: Option<u64>,
}

/// How many worktrees a pool has at most by default.
pub const DEFAULT_MAX_TREES: u32 = 16;

/// What reading a configuration file gave: with its path, and with what went
/// wrong.
#[derive(Clone, Debug, PartialEq, Eq)]
pub enum ConfigFile {
    Absent,
    Unreadable(String, String),
    Malformed(String, String),
    Parsed(TreehouseConfig),
}

/// A configuration file before it is parsed, with its path.
#[derive(Clone, Debug, PartialEq, Eq)]
pub enum ConfigText {
    Absent,
    Unreadable(String, String),
    Text(String, String),
}

/// Errors from loading a configuration.
#[derive(Clone, Debug, PartialEq, Eq)]
pub enum ConfigError {
    Invalid(String, String),
    Io(String, String),
    Toml(String, String),
}

impl ConfigError {
    /// The message of the error.
    pub open spec fn message_spec(self) -> Seq<char> {
        match self {
            ConfigError::Invalid(what, _) => "invalid config: "@ + what@,
            ConfigError::Io(path, e) => "failed to read config file "@ + path@ + ": "@ + e@,
            ConfigError::Toml(path, e) => "failed to parse config file "@ + path@ + ": "@ + e@,
        }
    }

    /// The message of the error.
    pub fn message(&self) -> (r: String)
        ensures
            r@ == self.message_spec(),
    {
        match self {
            ConfigError::Invalid(what, _) => {
                let mut s = "invalid config: ".to_owned();
                s.append(what);
                s
            },
            ConfigError::Io(path, e) => {
                let mut s = "failed to read config file ".to_owned();
                s.append(path);
                s.append(": ");
                s.append(e);
                s
            },
            ConfigError::Toml(path, e) => {
                let mut s = "failed to parse config file ".to_owned();
                s.append(path);
                s.append(": ");
                s.append(e);
                s
            },
        }
    }
}

/// The default settings.
pub open spec fn is_default(c: TreehouseConfig) -> bool {
    c.max_trees == DEFAULT_MAX_TREES && c.root is None && c.hooks.none() && c.lease_ttl_secs is None
}

/// The settings that are safe to take from a repository agree.
pub open spec fn same_safe_settings(a: TreehouseConfig, b: TreehouseConfig) -> bool {
    a.max_trees == b.max_trees && opt_view(a.root) == opt_view(b.root) && a.lease_ttl_secs
        == b.lease_ttl_secs
}

impl Default for TreehouseConfig {
    fn default() -> (r: TreehouseConfig)
        ensures
            is_default(r),
    {
        Self::default_config()
    }
}

/// `r` is what a configuration file of the repository and one of the user
/// come to.
pub open spec fn loads(
    repo: ConfigFile,
    user: ConfigFile,
    r: Result<TreehouseConfig, ConfigError>,
) -> bool {
    match (repo, user) {
        (ConfigFile::Unreadable(path, e), _) => r == Err::<TreehouseConfig, ConfigError>(
            ConfigError::Io(path, e),
        ),
        (ConfigFile::Malformed(path, e), _) => r == Err::<TreehouseConfig, ConfigError>(
            ConfigError::Toml(path, e),
        ),
        (_, ConfigFile::Unreadable(path, e)) => r == Err::<TreehouseConfig, ConfigError>(
            ConfigError::Io(path, e),
        ),
        (_, ConfigFile::Malformed(path, e)) => r == Err::<TreehouseConfig, ConfigError>(
            ConfigError::Toml(path, e),
        ),
        (ConfigFile::Parsed(c), ConfigFile::Parsed(u)) => r matches Ok(cfg) && same_safe_settings(
            cfg,
            c,
        ) && cfg.hooks.same(u.hooks),
        (ConfigFile::Parsed(c), ConfigFile::Absent) => r matches Ok(cfg) && same_safe_settings(
            cfg,
            c,
        ) && cfg.hooks.none(),
        (ConfigFile::Absent, ConfigFile::Parsed(u)) => r == Ok::<TreehouseConfig, ConfigError>(u),
        (ConfigFile::Absent, ConfigFile::Absent) => r matches Ok(cfg) && is_default(cfg),
    }
}

impl TreehouseConfig {
    /// The default settings.
    pub fn default_config() -> (r: TreehouseConfig)
        ensures
            is_default(r),
    {
        TreehouseConfig {
            max_trees: DEFAULT_MAX_TREES,
            root: None,
            hooks: Hooks::default(),
            lease_ttl_secs: None,
        }
    }

    /// A copy.
    pub fn copy(&self) -> (r: TreehouseConfig)
        ensures
            same_safe_settings(r, *self),
            r.hooks.same(self.hooks),
    {
        TreehouseConfig {
            max_trees: self.max_trees,
            root: copy_opt(&self.root),
            hooks: self.hooks.copy(),
            lease_ttl_secs: self.lease_ttl_secs,
        }
    }

    /// The settings that the configuration of the repository and that of the
    /// user come to. With both, the repository wins and the user brings the
    /// hooks. Hooks of the repository are never taken.
    pub fn load(repo: ConfigFile, user: ConfigFile) -> (r: Result<TreehouseConfig, ConfigError>)
        ensures
            loads(repo, user, r),
    {
        let mut cfg = Self::default_config();
        let has_repo_config: bool = match repo {
            ConfigFile::Absent => false,
            ConfigFile::Unreadable(path, e) => return Err(ConfigError::Io(path, e)),
            ConfigFile::Malformed(path, e) => return Err(ConfigError::Toml(path, e)),
            ConfigFile::Parsed(decoded) => {
                cfg.max_trees = decoded.max_trees;
                cfg.root = decoded.root;
                cfg.lease_ttl_secs = decoded.lease_ttl_secs;
                cfg.hooks = Hooks::default();
                true
            },
        };
        match user {
            ConfigFile::Absent => {},
            ConfigFile::Unreadable(path, e) => return Err(ConfigError::Io(path, e)),
            ConfigFile::Malformed(path, e) => return Err(ConfigError::Toml(path, e)),
            ConfigFile::Parsed(user_cfg) => {
                if !has_repo_config {
                    cfg = user_cfg;
                } else {
                    cfg.hooks = user_cfg.hooks;
                }
            },
        }
        Ok(cfg)
    }

    /// The settings without regard to any repository.
    pub fn load_global(user: ConfigFile) -> (r: Result<TreehouseConfig, ConfigError>)
        ensures
            loads(ConfigFile::Absent, user, r),
    {
        match user {
            ConfigFile::Absent => Ok(Self::default_config()),
            ConfigFile::Unreadable(path, e) => Err(ConfigError::Io(path, e)),
            ConfigFile::Malformed(path, e) => Err(ConfigError::Toml(path, e)),
            ConfigFile::Parsed(user_cfg) => Ok(user_cfg),
        }
    }
}

/// A configuration file as an environment has it: absent where there is
/// nothing at the path.
pub open spec fn config_text_spec<E: TreehouseEnv>(env: &E, path: Seq<char>, r: ConfigText) -> bool {
    if !env.present_view(path) {
        r is Absent
    } else {
        match env.text_view(path) {
            Some(t) => r matches ConfigText::Text(p, text) && p@ == path && text@ == t,
            None => r matches ConfigText::Unreadable(p, _) && p@ == path,
        }
    }
}

fn config_text_at<E: TreehouseEnv>(env: &E, path: String) -> (r: ConfigText)
    ensures
        config_text_spec(env, path@, r),
{
    if !env.path_exists(&path) {
        return ConfigText::Absent;
    }
    match env.read_file(&path) {
        Ok(text) => ConfigText::Text(path, text),
        Err(e) => ConfigText::Unreadable(path, e.message),
    }
}

/// The configuration file of a repository, as an environment has it.
pub fn repo_config_with_env<E: TreehouseEnv>(repo_root: &str, env: &E) -> (r: ConfigText)
    ensures
        config_text_spec(env, join_spec(repo_root@, "treehouse.toml"@), r),
{
    config_text_at(env, join(repo_root, "treehouse.toml"))
}

/// The configuration file of the user, as an environment has it.
pub fn user_config_with_env<E: TreehouseEnv>(env: &E) -> (r: ConfigText)
    ensures
        match env.config_view() {
            None => r is Absent,
            Some(path) => config_text_spec(env, path, r),
        },
{
    match env.user_config_path() {
        None => ConfigText::Absent,
        Some(path) => config_text_at(env, path),
    }
}

/// The path of the configuration of the user in an environment.
pub fn user_config_path_with_env<E: TreehouseEnv>(env: &E) -> (r: Option<String>)
    ensures
        opt_view(r) == env.config_view(),
{
    env.user_config_path()
}

// ---------- variables ----------

/// Where the values of variables come from.
pub trait VarSource {
    /// The value of a variable.
    spec fn value_view(&self) -> spec_fn(Seq<char>) -> Option<Seq<char>>;

    /// The value of a variable.
    fn value(&self, name: &str) -> (r: Option<String>)
        ensures
            opt_view(r) == (self.value_view())(name@),
    ;
}

/// Names and values of variables; the first of a name counts.
#[derive(Clone, Debug, PartialEq, Eq)]
pub struct VarTable {
    pub vars: Vec<(String, String)>,
}

/// The value of the first variable of this name.
pub open spec fn lookup(vars: Seq<(String, String)>, name: Seq<char>) -> Option<Seq<char>>
    decreases vars.len(),
{
    if vars.len() == 0 {
        None
    } else if vars[0].0@ == name {
        Some(vars[0].1@)
    } else {
        lookup(vars.skip(1), name)
    }
}

impl VarSource for VarTable {
    open spec fn value_view(&self) -> spec_fn(Seq<char>) -> Option<Seq<char>> {
        |name: Seq<char>| lookup(self.vars@, name)
    }

    fn value(&self, name: &str) -> (r: Option<String>) {
        let mut i: usize = 0;
        assert(self.vars@.skip(0) =~= self.vars@);
        while i < self.vars.len()
            invariant
                i <= self.vars.len(),
                lookup(self.vars@.skip(i as int), name@) == lookup(self.vars@, name@),
            decreases self.vars.len() - i,
        {
            assert(self.vars@.skip(i as int)[0] == self.vars@[i as int]);
            if same_text(&self.vars[i].0, name) {
                return Some(self.vars[i].1.clone());
            }
            assert(self.vars@.skip(i as int).skip(1) =~= self.vars@.skip(i + 1));
            i += 1;
        }
        None
    }
}

/// The variables of an environment.
pub struct EnvVars<'a, E> {
    pub env: &'a E,
}

impl<'a, E: TreehouseEnv> VarSource for EnvVars<'a, E> {
    open spec fn value_view(&self) -> spec_fn(Seq<char>) -> Option<Seq<char>> {
        |name: Seq<char>| self.env.var_view(name)
    }

    fn value(&self, name: &str) -> (r: Option<String>) {
        self.env.env_var(name)
    }
}

/// The character is a letter or a numeral, in the sense of Unicode.
pub uninterp spec fn alphanumeric(c: char) -> bool;

/// `char::is_alphanumeric`. Of the ASCII characters, the letters and the
/// digits are alphanumeric.
#[verifier::external_body]
fn is_alphanumeric(c: char) -> (r: bool)
    ensures
        r == alphanumeric(c),
        c <= '\u{7f}' ==> r == ('0' <= c <= '9' || 'A' <= c <= 'Z' || 'a' <= c <= 'z'),
{
    c.is_alphanumeric()
}

/// The character can be part of the name of a variable.
pub open spec fn in_name(c: char) -> bool {
    alphanumeric(c) || c == '_'
}

/// How many characters at the start can be part of a name.
pub open spec fn name_len(s: Seq<char>) -> int
    decreases s.len(),
{
    if s.len() == 0 || !in_name(s[0]) {
        0
    } else {
        1 + name_len(s.skip(1))
    }
}

proof fn lemma_name_len(s: Seq<char>)
    ensures
        0 <= name_len(s) <= s.len(),
        forall|j: int| 0 <= j < name_len(s) ==> in_name(s[j]),
        name_len(s) < s.len() ==> !in_name(s[name_len(s)]),
    decreases s.len(),
{
    if s.len() == 0 || !in_name(s[0]) {
    } else {
        let t = s.skip(1);
        lemma_name_len(t);
        assert forall|j: int| 0 <= j < name_len(s) implies in_name(s[j]) by {
            if j > 0 {
                assert(t[j - 1] == s[j]);
            }
        }
        if name_len(s) < s.len() {
            assert(t[name_len(t)] == s[name_len(s)]);
        }
    }
}

proof fn lemma_name_len_unique(s: Seq<char>, i: int)
    requires
        0 <= i <= s.len(),
        forall|j: int| 0 <= j < i ==> in_name(s[j]),
        i < s.len() ==> !in_name(s[i]),
    ensures
        name_len(s) == i,
{
    lemma_name_len(s);
    let k = name_len(s);
    if k < i {
        assert(in_name(s[k]));
    } else if i < k {
        assert(in_name(s[i]));
    }
}

/// A value, empty where there is none.
pub open spec fn value_or_empty(v: Option<Seq<char>>) -> Seq<char> {
    match v {
        Some(t) => t,
        None => seq![],
    }
}

/// `s` with `$NAME` and `${NAME}` replaced by the values of the variables,
/// unknown ones by nothing. A `$` before anything else stands for itself, and
/// so does one before a `{` that is not closed.
pub open spec fn expanded(s: Seq<char>, look: spec_fn(Seq<char>) -> Option<Seq<char>>) -> Seq<char>
    decreases s.len(),
    via expanded_decreases
{
    if s.len() == 0 {
        seq![]
    } else if s[0] == '$' && s.len() > 1 && s[1] == '{' && first_of(s.skip(2), '}') < s.skip(
        2,
    ).len() {
        let end = first_of(s.skip(2), '}');
        value_or_empty(look(s.skip(2).take(end))) + expanded(s.skip(end + 3), look)
    } else if s[0] == '$' && s.len() > 1 && s[1] != '{' && in_name(s[1]) {
        let k = name_len(s.skip(1));
        value_or_empty(look(s.skip(1).take(k))) + expanded(s.skip(k + 1), look)
    } else {
        seq![s[0]] + expanded(s.skip(1), look)
    }
}

#[via_fn]
proof fn expanded_decreases(s: Seq<char>, look: spec_fn(Seq<char>) -> Option<Seq<char>>) {
    if s.len() > 1 {
        lemma_first_of(s.skip(2), '}');
        lemma_name_len(s.skip(1));
    }
}

/// Replaces `$NAME` and `${NAME}` by the values of the variables.
pub fn expand_env<V: VarSource>(s: &str, vars: &V) -> (r: String)
    ensures
        r@ == expanded(s@, vars.value_view()),
{
    let chars = chars_of(s);
    let n: usize = chars.len();
    let mut out = String::new();
    let mut i: usize = 0;
    let ghost look = vars.value_view();
    assert(s@.skip(0) =~= s@);
    assert(out@ + expanded(s@, look) =~= expanded(s@, look));
    while i < n
        invariant
            chars@ == s@,
            n == chars.len(),
            i <= n,
            look == vars.value_view(),
            out@ + expanded(s@.skip(i as int), look) == expanded(s@, look),
        decreases n - i,
    {
        let ghost rest = s@.skip(i as int);
        let ghost before = out@;
        assert(rest[0] == chars@[i as int]);
        if chars[i] == '$' && i + 1 < n {
            assert(rest[1] == chars@[i + 1]);
            if chars[i + 1] == '{' {
                let mut j: usize = i + 2;
                while j < n && chars[j] != '}'
                    invariant
                        chars@ == s@,
                        n == chars.len(),
                        i + 2 <= j <= n,
                        forall|k: int| i + 2 <= k < j ==> chars@[k] != '}',
                    decreases n - j,
                {
                    j += 1;
                }
                proof {
                    let t = rest.skip(2);
                    assert forall|k: int| 0 <= k < j - i - 2 implies t[k] != '}' by {
                        assert(t[k] == chars@[i + 2 + k]);
                    }
                    if j < n {
                        assert(t[j - i - 2] == chars@[j as int]);
                    }
                    lemma_first_of_unique(t, '}', j - i - 2);
                }
                if j < n {
                    let name = s.substring_char(i + 2, j);
                    assert(name@ =~= rest.skip(2).take(j - i - 2));
                    if let Some(val) = vars.value(name) {
                        out.append(&val);
                    }
                    assert(out@ =~= before + value_or_empty(look(name@)));
                    assert(rest.skip(j - i - 2 + 3) =~= s@.skip(j + 1));
                    assert(out@ + expanded(s@.skip(j + 1), look) =~= before + expanded(rest, look));
                    i = j + 1;
                    continue;
                }
            } else if chars[i + 1] == '_' || is_alphanumeric(chars[i + 1]) {
                let mut j: usize = i + 1;
                while j < n && (chars[j] == '_' || is_alphanumeric(chars[j]))
                    invariant
                        chars@ == s@,
                        n == chars.len(),
                        i + 1 <= j <= n,
                        forall|k: int| i + 1 <= k < j ==> in_name(chars@[k]),
                    decreases n - j,
                {
                    j += 1;
                }
                proof {
                    let t = rest.skip(1);
                    assert forall|k: int| 0 <= k < j - i - 1 implies in_name(t[k]) by {
                        assert(t[k] == chars@[i + 1 + k]);
                    }
                    if j < n {
                        assert(t[j - i - 1] == chars@[j as int]);
                    }
                    lemma_name_len_unique(t, j - i - 1);
                    lemma_name_len(t);
                    assert(t[0] == chars@[i + 1]);
                }
                let name = s.substring_char(i + 1, j);
                assert(name@ =~= rest.skip(1).take(j - i - 1));
                if let Some(val) = vars.value(name) {
                    out.append(&val);
                }
                assert(out@ =~= before + value_or_empty(look(name@)));
                assert(rest.skip(j - i - 1 + 1) =~= s@.skip(j as int));
                assert(out@ + expanded(s@.skip(j as int), look) =~= before + expanded(rest, look));
                i = j;
                continue;
            }
        }
        let one = s.substring_char(i, i + 1);
        assert(one@ =~= seq![rest[0]]);
        out.append(one);
        assert(rest.skip(1) =~= s@.skip(i + 1));
        assert(out@ + expanded(s@.skip(i + 1), look) =~= before + expanded(rest, look));
        i += 1;
    }
    assert(s@.skip(n as int) =~= seq![]);
    assert(out@ + expanded(seq![], look) =~= out@);
    out
}

// ---------- where pools are ----------

/// What a [`ConfigError::Invalid`] says.
pub struct InvalidView {
    pub what: Seq<char>,
    pub detail: Seq<char>,
}

/// `r` is the text `want`, or the error.
pub open spec fn resolves(
    want: Result<Seq<char>, InvalidView>,
    r: Result<String, ConfigError>,
) -> bool {
    match want {
        Ok(path) => r matches Ok(p) && p@ == path,
        Err(e) => r matches Err(ConfigError::Invalid(what, detail)) && what@ == e.what && detail@
            == e.detail,
    }
}

/// The directory that holds the pools. `unset` stands where no root is set.
pub open spec fn pool_root_spec(
    repo_root: Seq<char>,
    root: Option<Seq<char>>,
    unset: Result<Seq<char>, InvalidView>,
    look: spec_fn(Seq<char>) -> Option<Seq<char>>,
) -> Result<Seq<char>, InvalidView> {
    match root {
        Some(text) if text.len() > 0 => {
            let given = expanded(text, look);
            if absolute(given) {
                Ok(join_spec(given, ".treehouse"@))
            } else if repo_root.len() == 0 {
                Err(
                    InvalidView {
                        what: "relative treehouse root "@ + quoted(text)
                            + " requires a repository"@,
                        detail: seq![],
                    },
                )
            } else {
                Ok(join_spec(join_spec(repo_root, given), ".treehouse"@))
            }
        },
        _ => unset,
    }
}

/// The default root, in the home directory.
pub open spec fn home_root(home: Option<Seq<char>>) -> Result<Seq<char>, InvalidView> {
    match home {
        Some(h) => Ok(join_spec(h, ".treehouse"@)),
        None => Err(
            InvalidView { what: "home dir not found"@, detail: "cannot resolve $HOME"@ },
        ),
    }
}

/// The default root that an environment has.
pub open spec fn env_root(root: Option<Seq<char>>) -> Result<Seq<char>, InvalidView> {
    match root {
        Some(p) => Ok(p),
        None => Err(
            InvalidView {
                what: "pool root not found"@,
                detail: "env.pool_root() returned None"@,
            },
        ),
    }
}

/// The name of the pool of a repository: its name, and six digits of the hash
/// of its remote, or of its path where it has no remote.
pub open spec fn pool_name(repo_root: Seq<char>, remote: Option<Seq<char>>) -> Seq<char> {
    let name = match file_name_spec(repo_root) {
        Some(n) => n,
        None => "repo"@,
    };
    let hashed = match remote {
        Some(url) if url.len() > 0 => url,
        _ => repo_root,
    };
    name + "-"@ + hex(sha256(vstd::utf8::encode_utf8(hashed))).take(6)
}

fn resolve_given_root<V: VarSource>(repo_root: &str, root: &str, vars: &V) -> (r: Result<
    String,
    ConfigError,
>)
    requires
        root@.len() > 0,
    ensures
        forall|unset: Result<Seq<char>, InvalidView>|
            resolves(
                #[trigger] pool_root_spec(repo_root@, Some(root@), unset, vars.value_view()),
                r,
            ),
{
    let given = expand_env(root, vars);
    if is_absolute(&given) {
        return Ok(join(&given, ".treehouse"));
    }
    if repo_root.is_empty() {
        let mut what = "relative treehouse root ".to_owned();
        what.append(&quote(root));
        what.append(" requires a repository");
        return Err(ConfigError::Invalid(what, String::new()));
    }
    Ok(join(&join(repo_root, &given), ".treehouse"))
}

/// The directory that holds the pools. `home` is the home directory.
pub fn resolve_pool_root<V: VarSource>(
    repo_root: &str,
    root: Option<&str>,
    home: Option<&str>,
    vars: &V,
) -> (r: Result<String, ConfigError>)
    ensures
        resolves(
            pool_root_spec(
                repo_root@,
                opt_str_view(root),
                home_root(opt_str_view(home)),
                vars.value_view(),
            ),
            r,
        ),
{
    if let Some(text) = root {
        if !text.is_empty() {
            return resolve_given_root(repo_root, text, vars);
        }
    }
    match home {
        Some(h) => Ok(join(h, ".treehouse")),
        None => Err(
            ConfigError::Invalid(
                "home dir not found".to_owned(),
                "cannot resolve $HOME".to_owned(),
            ),
        ),
    }
}

/// The directory that holds the pools of an environment. Variables come from
/// the environment too.
pub fn resolve_pool_root_with_env<E: TreehouseEnv>(
    repo_root: &str,
    root: Option<&str>,
    env: &E,
) -> (r: Result<String, ConfigError>)
    ensures
        resolves(
            pool_root_spec(
                repo_root@,
                opt_str_view(root),
                env_root(env.root_view()),
                |name: Seq<char>| env.var_view(name),
            ),
            r,
        ),
{
    if let Some(text) = root {
        if !text.is_empty() {
            let vars = EnvVars { env };
            let r = resolve_given_root(repo_root, text, &vars);
            assert(vars.value_view() =~= (|name: Seq<char>| env.var_view(name)));
            return r;
        }
    }
    match env.pool_root() {
        Some(p) => Ok(p),
        None => Err(
            ConfigError::Invalid(
                "pool root not found".to_owned(),
                "env.pool_root() returned None".to_owned(),
            ),
        ),
    }
}

fn pool_name_text(repo_root: &str, remote_url: Option<&str>) -> (r: String)
    ensures
        r@ == pool_name(repo_root@, opt_str_view(remote_url)),
{
    let mut name = match file_name(repo_root) {
        Some(n) => n,
        None => "repo".to_owned(),
    };
    let hashed: &str = match remote_url {
        Some(url) => if url.is_empty() {
            repo_root
        } else {
            url
        },
        None => repo_root,
    };
    name.append("-");
    name.append(&short_hash(hashed));
    name
}

/// The pool directory with this name below `pool_root`.
pub open spec fn pool_dir_spec(
    pool_root: Result<Seq<char>, InvalidView>,
    name: Seq<char>,
) -> Result<Seq<char>, InvalidView> {
    match pool_root {
        Ok(p) => Ok(join_spec(p, name)),
        Err(e) => Err(e),
    }
}

/// The directory of the pool of a repository.
pub fn resolve_pool_dir<V: VarSource>(
    repo_root: &str,
    root: Option<&str>,
    remote_url: Option<&str>,
    home: Option<&str>,
    vars: &V,
) -> (r: Result<String, ConfigError>)
    ensures
        resolves(
            pool_dir_spec(
                pool_root_spec(
                    repo_root@,
                    opt_str_view(root),
                    home_root(opt_str_view(home)),
                    vars.value_view(),
                ),
                pool_name(repo_root@, opt_str_view(remote_url)),
            ),
            r,
        ),
{
    let name = pool_name_text(repo_root, remote_url);
    match resolve_pool_root(repo_root, root, home, vars) {
        Ok(p) => Ok(join(&p, &name)),
        Err(e) => Err(e),
    }
}

/// The directory of the pool of a repository in an environment.
pub fn resolve_pool_dir_with_env<E: TreehouseEnv>(
    repo_root: &str,
    root: Option<&str>,
    remote_url: Option<&str>,
    env: &E,
) -> (r: Result<String, ConfigError>)
    ensures
        resolves(
            pool_dir_spec(
                pool_root_spec(
                    repo_root@,
                    opt_str_view(root),
                    env_root(env.root_view()),
                    |name: Seq<char>| env.var_view(name),
                ),
                pool_name(repo_root@, opt_str_view(remote_url)),
            ),
            r,
        ),
{
    let name = pool_name_text(repo_root, remote_url);
    match resolve_pool_root_with_env(repo_root, root, env) {
        Ok(p) => Ok(join(&p, &name)),
        Err(e) => Err(e),
    }
}

/// The home directory: `HOME`, or `USERPROFILE` where that is not set.
pub fn home_dir<V: VarSource>(vars: &V) -> (r: Option<String>)
    ensures
        opt_view(r) == match (vars.value_view())("HOME"@) {
            Some(h) => Some(h),
            None => (vars.value_view())("USERPROFILE"@),
        },
{
    match vars.value("HOME") {
        Some(h) => Some(h),
        None => vars.value("USERPROFILE"),
    }
}

// ---------- laws ----------

/// The hooks of a repository never take effect: with any other hooks in the
/// configuration of the repository, what is loaded has the same settings and
/// the same hooks.
pub proof fn law_repo_hooks_are_ignored(
    a: TreehouseConfig,
    b: TreehouseConfig,
    user: ConfigFile,
    ra: TreehouseConfig,
    rb: TreehouseConfig,
)
    requires
        same_safe_settings(a, b),
        loads(ConfigFile::Parsed(a), user, Ok(ra)),
        loads(ConfigFile::Parsed(b), user, Ok(rb)),
    ensures
        same_safe_settings(ra, rb),
        ra.hooks.same(rb.hooks),
{
    if user is Absent {
        assert(ra.hooks.post_create@ =~= rb.hooks.post_create@);
        assert(ra.hooks.pre_destroy@ =~= rb.hooks.pre_destroy@);
    }
}

/// A text without `$` is not changed by expansion.
pub proof fn law_expand_keeps_plain_text(
    s: Seq<char>,
    look: spec_fn(Seq<char>) -> Option<Seq<char>>,
)
    requires
        forall|i: int| 0 <= i < s.len() ==> s[i] != '$',
    ensures
        expanded(s, look) == s,
    decreases s.len(),
{
    if s.len() > 0 {
        assert forall|i: int| 0 <= i < s.skip(1).len() implies s.skip(1)[i] != '$' by {
            assert(s.skip(1)[i] == s[i + 1]);
        }
        law_expand_keeps_plain_text(s.skip(1), look);
        assert(seq![s[0]] + s.skip(1) =~= s);
    } else {
        assert(expanded(s, look) =~= s);
    }
}

/// A variable in braces stands for its value, whatever follows it.
pub proof fn law_braced_variable_is_replaced(
    name: Seq<char>,
    rest: Seq<char>,
    look: spec_fn(Seq<char>) -> Option<Seq<char>>,
)
    requires
        forall|i: int| 0 <= i < name.len() ==> name[i] != '}',
    ensures
        expanded(seq!['$', '{'] + name + seq!['}'] + rest, look) == (match look(name) {
            Some(v) => v,
            None => seq![],
        }) + expanded(rest, look),
{
    let s = seq!['$', '{'] + name + seq!['}'] + rest;
    let t = s.skip(2);
    let n = name.len() as int;
    assert(t =~= name + seq!['}'] + rest);
    assert forall|j: int| 0 <= j < n implies t[j] != '}' by {
        assert(t[j] == name[j]);
    }
    assert(t[n] == '}');
    crate::text::lemma_first_of_unique(t, '}', n);
    assert(t.take(n) =~= name);
    assert(s.skip(n + 3) =~= rest);
}

/// A variable without braces stands for its value; its name goes as far as
/// letters, numerals and underscores do.
pub proof fn law_plain_variable_is_replaced(
    name: Seq<char>,
    rest: Seq<char>,
    look: spec_fn(Seq<char>) -> Option<Seq<char>>,
)
    requires
        name.len() > 0,
        name[0] != '{',
        forall|i: int| 0 <= i < name.len() ==> alphanumeric(name[i]) || name[i] == '_',
        rest.len() > 0 ==> !alphanumeric(rest[0]) && rest[0] != '_',
    ensures
        expanded(seq!['$'] + name + rest, look) == (match look(name) {
            Some(v) => v,
            None => seq![],
        }) + expanded(rest, look),
{
    let s = seq!['$'] + name + rest;
    let t = s.skip(1);
    let n = name.len() as int;
    assert(t =~= name + rest);
    assert(s[1] == name[0]);
    assert forall|j: int| 0 <= j < n implies in_name(t[j]) by {
        assert(t[j] == name[j]);
    }
    if n < t.len() {
        assert(t[n] == rest[0]);
    }
    lemma_name_len_unique(t, n);
    assert(t.take(n) =~= name);
    assert(s.skip(n + 1) =~= rest);
}

/// Text before a `$` stays as it is, and so does a `$` that begins no variable.
pub proof fn law_expand_keeps_the_rest(
    c: char,
    rest: Seq<char>,
    look: spec_fn(Seq<char>) -> Option<Seq<char>>,
)
    requires
        c != '$' || rest.len() == 0 || (rest[0] != '{' && !alphanumeric(rest[0]) && rest[0] != '_'),
    ensures
        expanded(seq![c] + rest, look) == seq![c] + expanded(rest, look),
{
    let s = seq![c] + rest;
    assert(s.skip(1) =~= rest);
    if rest.len() > 0 {
        assert(s[1] == rest[0]);
    }
}

/// The first variable of a name counts; a name without a variable has no value.
pub proof fn law_first_variable_counts(vars: Seq<(String, String)>, name: Seq<char>, i: int)
    ensures
        0 <= i < vars.len() && vars[i].0@ == name && (forall|j: int|
            0 <= j < i ==> (#[trigger] vars[j]).0@ != name) ==> lookup(vars, name) == Some(
            vars[i].1@,
        ),
        (forall|j: int| 0 <= j < vars.len() ==> (#[trigger] vars[j]).0@ != name) ==> lookup(
            vars,
            name,
        ) is None,
    decreases vars.len(),
{
    if vars.len() > 0 {
        let t = vars.skip(1);
        law_first_variable_counts(t, name, i - 1);
        assert(forall|j: int| 0 <= j < t.len() ==> #[trigger] t[j] == vars[j + 1]);
        if vars[0].0@ != name {
            if 0 <= i < vars.len() && vars[i].0@ == name && (forall|j: int|
                0 <= j < i ==> (#[trigger] vars[j]).0@ != name) {
                assert(t[i - 1] == vars[i]);
                assert forall|j: int| 0 <= j < i - 1 implies (#[trigger] t[j]).0@ != name by {
                    assert(vars[j + 1].0@ != name);
                }
            }
            if forall|j: int| 0 <= j < vars.len() ==> (#[trigger] vars[j]).0@ != name {
                assert forall|j: int| 0 <= j < t.len() implies (#[trigger] t[j]).0@ != name by {
                    assert(vars[j + 1].0@ != name);
                }
            }
        } else if 0 < i < vars.len() {
            if forall|j: int| 0 <= j < i ==> (#[trigger] vars[j]).0@ != name {
                assert(vars[0].0@ != name);
            }
        }
    }
}

/// Pools lie in `.treehouse` below the configured root. A relative root is seen
/// from the repository, and refused where there is none; without a root the
/// default stands.
pub proof fn law_pools_lie_below_the_configured_root(
    repo_root: Seq<char>,
    root: Seq<char>,
    unset: Result<Seq<char>, InvalidView>,
    look: spec_fn(Seq<char>) -> Option<Seq<char>>,
)
    requires
        root.len() > 0,
    ensures
        ({
            let given = expanded(root, look);
            let r = pool_root_spec(repo_root, Some(root), unset, look);
            &&& absolute(given) ==> r == Ok::<Seq<char>, InvalidView>(
                join_spec(given, ".treehouse"@),
            )
            &&& !absolute(given) && repo_root.len() > 0 ==> r == Ok::<Seq<char>, InvalidView>(
                join_spec(join_spec(repo_root, given), ".treehouse"@),
            )
            &&& !absolute(given) && repo_root.len() == 0 ==> r is Err
            &&& pool_root_spec(repo_root, None, unset, look) == unset
            &&& pool_root_spec(repo_root, Some(seq![]), unset, look) == unset
        }),
{
}

/// Clones of one remote that have the same directory name share a pool,
/// wherever they lie; without a remote each directory has its own.
pub proof fn law_pool_goes_by_the_remote(a: Seq<char>, b: Seq<char>, remote: Seq<char>)
    requires
        file_name_spec(a) == file_name_spec(b),
        file_name_spec(a) is Some,
    ensures
        remote.len() > 0 ==> pool_name(a, Some(remote)) == pool_name(b, Some(remote)),
        pool_name(a, None) == file_name_spec(a)->0 + "-"@ + hex(
            sha256(vstd::utf8::encode_utf8(a)),
        ).take(6),
        pool_name(a, Some(seq![])) == pool_name(a, None),
        remote.len() > 0 ==> pool_name(a, Some(remote)) == file_name_spec(a)->0 + "-"@ + hex(
            sha256(vstd::utf8::encode_utf8(remote)),
        ).take(6),
{
}

/// What is loaded has the settings of the repository, or those of the user where
/// the repository has none, and always the hooks of the user.
pub proof fn law_settings_and_hooks_come_from_their_files(
    repo: ConfigFile,
    user: ConfigFile,
    cfg: TreehouseConfig,
)
    requires
        loads(repo, user, Ok(cfg)),
    ensures
        repo matches ConfigFile::Parsed(c) ==> cfg.max_trees == c.max_trees && opt_view(cfg.root)
            == opt_view(c.root) && cfg.lease_ttl_secs == c.lease_ttl_secs,
        repo is Absent ==> (user matches ConfigFile::Parsed(u) ==> cfg.max_trees == u.max_trees
            && opt_view(cfg.root) == opt_view(u.root) && cfg.lease_ttl_secs == u.lease_ttl_secs),
        repo is Absent && user is Absent ==> cfg.max_trees == DEFAULT_MAX_TREES && cfg.root is None
            && cfg.lease_ttl_secs is None,
        user matches ConfigFile::Parsed(u) ==> cfg.hooks.post_create@ == u.hooks.post_create@
            && cfg.hooks.pre_destroy@ == u.hooks.pre_destroy@,
        user is Absent ==> cfg.hooks.post_create@.len() == 0 && cfg.hooks.pre_destroy@.len() == 0,
        !(repo is Unreadable) && !(repo is Malformed) && !(user is Unreadable) && !(
        user is Malformed),
{
}

/// Without a configured root pools lie in `.treehouse` in the home directory,
/// and a pool lies right below the directory of the pools; without a home
/// directory there is no place for them.
pub proof fn law_pools_lie_in_the_home_directory(home: Seq<char>, name: Seq<char>)
    ensures
        home_root(Some(home)) == Ok::<Seq<char>, InvalidView>(join_spec(home, ".treehouse"@)),
        home_root(None) is Err,
        env_root(Some(home)) == Ok::<Seq<char>, InvalidView>(home),
        env_root(None) is Err,
        pool_dir_spec(Ok(home), name) == Ok::<Seq<char>, InvalidView>(join_spec(home, name)),
        forall|e: InvalidView|
            #[trigger] pool_dir_spec(Err(e), name) == Err::<Seq<char>, InvalidView>(e),
{
}

/// A configuration file is read where it is there: as its text, or as unreadable
/// where it is no text.
pub proof fn law_present_config_is_read<E: TreehouseEnv>(env: &E, path: Seq<char>, r: ConfigText)
    requires
        config_text_spec(env, path, r),
    ensures
        r is Absent <==> !env.present_view(path),
        r matches ConfigText::Text(p, text) ==> p@ == path && env.text_view(path) == Some(text@),
        r is Unreadable <==> env.present_view(path) && env.text_view(path) is None,
{
}

/// A file that cannot be read or parsed is an error, that of the repository
/// first; otherwise loading succeeds.
pub proof fn law_bad_files_are_errors(
    repo: ConfigFile,
    user: ConfigFile,
    r: Result<TreehouseConfig, ConfigError>,
)
    requires
        loads(repo, user, r),
    ensures
        repo matches ConfigFile::Unreadable(path, e) ==> r == Err::<TreehouseConfig, ConfigError>(
            ConfigError::Io(path, e),
        ),
        repo matches ConfigFile::Malformed(path, e) ==> r == Err::<TreehouseConfig, ConfigError>(
            ConfigError::Toml(path, e),
        ),
        repo is Parsed || repo is Absent ==> (user matches ConfigFile::Unreadable(path, e) ==> r
            == Err::<TreehouseConfig, ConfigError>(ConfigError::Io(path, e))),
        repo is Parsed || repo is Absent ==> (user matches ConfigFile::Malformed(path, e) ==> r
            == Err::<TreehouseConfig, ConfigError>(ConfigError::Toml(path, e))),
        (repo is Parsed || repo is Absent) && (user is Parsed || user is Absent) ==> r is Ok,
{
}

/// A root is resolved to what it comes to, or refused with what is wrong.
pub proof fn law_roots_resolve_to_what_they_come_to(
    want: Result<Seq<char>, InvalidView>,
    r: Result<String, ConfigError>,
)
    requires
        resolves(want, r),
    ensures
        r is Ok <==> want is Ok,
        r matches Ok(p) ==> want->Ok_0 == p@,
        r is Err ==> (r matches Err(ConfigError::Invalid(what, detail)) && what@ == want->Err_0.what
            && detail@ == want->Err_0.detail),
{
}

/// The default settings: sixteen worktrees at most, no root, no hooks, and no
/// length for leases.
pub proof fn law_default_settings(c: TreehouseConfig)
    requires
        is_default(c),
    ensures
        c.max_trees == 16,
        c.root is None,
        c.hooks.post_create@.len() == 0,
        c.hooks.pre_destroy@.len() == 0,
        c.lease_ttl_secs is None,
{
}

/// The errors of configurations in words.
pub proof fn law_config_errors_in_words(a: String, b: String)
    ensures
        ConfigError::Invalid(a, b).message_spec() == "invalid config: "@ + a@,
        ConfigError::Io(a, b).message_spec() == "failed to read config file "@ + a@ + ": "@ + b@,
        ConfigError::Toml(a, b).message_spec() == "failed to parse config file "@ + a@ + ": "@ + b@,
{
}

} // verus!
