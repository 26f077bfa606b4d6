//! The environment of a pool: where things are kept, files and variables.
//!
//! Whoever embeds the library brings an environment of their own. While it is
//! borrowed, an environment answers as of one moment.

use vstd::prelude::*;
use vstd::string::*;
use vstd::utf8::*;

use crate::path::{
    comps, join, join_spec, law_parent_drops_last, lemma_row_order, parent, parent_spec,
    path_before, root_comp, row_less, rows_begin, same_path, starts_with_path,
};
use crate::text::{opt_view, same_text, views};
use crate::time::Timestamp;

verus! {

/// What is known of a file.
#[derive(Clone, Copy, Debug, PartialEq, Eq)]
pub struct FileMeta {
    pub size: u64,
    pub modified: Option<Timestamp>,
}

/// What kind of failure an environment met.
#[derive(Clone, Copy, Debug, PartialEq, Eq, Structural)]
pub enum EnvErrorKind {
    NotFound,
    Other,
}

/// A failure of an environment.
#[derive(Clone, Debug, PartialEq, Eq)]
pub struct EnvError {
    pub kind: EnvErrorKind,
    pub message: String,
}

/// What there is at a path.
pub enum FileView {
    Content(Seq<u8>),
    Missing,
    Unreadable,
}

/// All that a pool needs of its surroundings. What an environment holds is
/// left open, unless its implementation says so.
pub trait TreehouseEnv {
    /// Where pools are kept.
    closed spec fn root_view(&self) -> Option<Seq<char>> {
        arbitrary()
    }

    /// Where the result of the last update check is kept.
    closed spec fn cache_view(&self) -> Option<Seq<char>> {
        arbitrary()
    }

    /// Where the configuration of the user is kept.
    closed spec fn config_view(&self) -> Option<Seq<char>> {
        arbitrary()
    }

    /// The value of a variable.
    closed spec fn var_view(&self, name: Seq<char>) -> Option<Seq<char>> {
        arbitrary()
    }

    /// What there is at a path.
    closed spec fn file_view(&self, path: Seq<char>) -> FileView {
        arbitrary()
    }

    /// The text that reading the file at a path gives; none where it cannot be
    /// read as text.
    closed spec fn text_view(&self, path: Seq<char>) -> Option<Seq<char>> {
        arbitrary()
    }

    /// There is a file or a directory at a path.
    closed spec fn present_view(&self, path: Seq<char>) -> bool {
        arbitrary()
    }

    /// `entries` can be the listing of a directory.
    closed spec fn lists(&self, path: Seq<char>, entries: Seq<Seq<char>>) -> bool {
        arbitrary()
    }

    /// A directory can be listed.
    closed spec fn listable(&self, path: Seq<char>) -> bool {
        arbitrary()
    }

    /// Root directory for pool storage.
    fn pool_root(&self) -> (r: Option<String>)
        ensures
            opt_view(r) == self.root_view(),
    ;

    /// Path of the update check cache.
    fn update_cache_path(&self) -> (r: Option<String>)
        ensures
            opt_view(r) == self.cache_view(),
    ;

    /// Path of the configuration of the user.
    fn user_config_path(&self) -> (r: Option<String>)
        ensures
            opt_view(r) == self.config_view(),
    ;

    /// The text of a file.
    fn read_file(&self, path: &str) -> (r: Result<String, EnvError>)
        ensures
            match r {
                Ok(s) => self.text_view(path@) == Some(s@),
                Err(_) => self.text_view(path@) is None,
            },
            match self.file_view(path@) {
                FileView::Content(bytes) => valid_utf8(bytes) ==> (r matches Ok(s) && s@
                    == decode_utf8(bytes)),
                FileView::Missing => r matches Err(e) && e.kind == EnvErrorKind::NotFound,
                FileView::Unreadable => r matches Err(e) && e.kind == EnvErrorKind::Other,
            },
    ;

    /// The bytes of a file.
    fn read_bytes(&self, path: &str) -> (r: Result<Vec<u8>, EnvError>)
        ensures
            match self.file_view(path@) {
                FileView::Content(bytes) => r matches Ok(v) && v@ == bytes,
                FileView::Missing => r matches Err(e) && e.kind == EnvErrorKind::NotFound,
                FileView::Unreadable => r matches Err(e) && e.kind == EnvErrorKind::Other,
            },
    ;

    /// Writes a file. What was written can be read back. The places and the
    /// variables stay as they are.
    fn write_file(&mut self, path: &str, data: &[u8]) -> (r: Result<(), EnvError>)
        ensures
            r is Ok ==> final(self).file_view(path@) == FileView::Content(data@),
            final(self).root_view() == old(self).root_view(),
            final(self).cache_view() == old(self).cache_view(),
            final(self).config_view() == old(self).config_view(),
            forall|name: Seq<char>| #[trigger]
                final(self).var_view(name) == old(self).var_view(name),
    ;

    /// Makes a directory and those above it. The places, the variables and all
    /// files stay as they are.
    fn ensure_dir(&mut self, path: &str) -> (r: Result<(), EnvError>)
        ensures
            r is Ok ==> final(self).present_view(path@),
            final(self).root_view() == old(self).root_view(),
            final(self).cache_view() == old(self).cache_view(),
            final(self).config_view() == old(self).config_view(),
            forall|name: Seq<char>| #[trigger]
                final(self).var_view(name) == old(self).var_view(name),
            forall|q: Seq<char>|
                old(self).file_view(q) is Content ==> #[trigger] final(self).file_view(q)
                    == old(self).file_view(q),
            forall|q: Seq<char>|
                old(self).text_view(q) is Some ==> #[trigger] final(self).text_view(q)
                    == old(self).text_view(q),
            forall|q: Seq<char>|
                old(self).present_view(q) ==> #[trigger] final(self).present_view(q),
    ;

    /// Whether there is a file or a directory at a path.
    fn path_exists(&self, path: &str) -> (r: bool)
        ensures
            r == self.present_view(path@),
    ;

    /// The entries of a directory.
    fn list_dir(&self, path: &str) -> (r: Result<Vec<String>, EnvError>)
        ensures
            self.listable(path@) ==> (r matches Ok(v) && self.lists(path@, views(v@))),
            !self.listable(path@) ==> r is Err,
    ;

    /// What is known of a file.
    fn file_meta(&self, path: &str) -> (r: Result<FileMeta, EnvError>)
        ensures
            match self.file_view(path@) {
                FileView::Content(bytes) => r matches Ok(m) && m.size == bytes.len(),
                FileView::Missing => r matches Err(e) && e.kind == EnvErrorKind::NotFound,
                FileView::Unreadable => true,
            },
    ;

    /// The value of a variable.
    fn env_var(&self, name: &str) -> (r: Option<String>)
        ensures
            opt_view(r) == self.var_view(name@),
    ;

    /// The value of a variable, as a path.
    fn env_var_os(&self, name: &str) -> (r: Option<String>)
        ensures
            self.var_view(name@) is Some ==> opt_view(r) == self.var_view(name@),
    ;

    /// The current directory.
    fn cwd(&self) -> (r: Option<String>);
}

/// The environment has the same places, variables and files as before.
pub open spec fn kept<E: TreehouseEnv>(before: &E, after: &E) -> bool {
    &&& after.root_view() == before.root_view()
    &&& after.cache_view() == before.cache_view()
    &&& after.config_view() == before.config_view()
    &&& forall|name: Seq<char>| #[trigger] after.var_view(name) == before.var_view(name)
    &&& forall|q: Seq<char>|
        before.file_view(q) is Content ==> #[trigger] after.file_view(q) == before.file_view(q)
    &&& forall|q: Seq<char>|
        before.text_view(q) is Some ==> #[trigger] after.text_view(q) == before.text_view(q)
    &&& forall|q: Seq<char>| before.present_view(q) ==> #[trigger] after.present_view(q)
}

// ---------- places below the home directory ----------

/// Where pools are kept by default.
pub fn default_pool_root(home: Option<&str>) -> (r: Option<String>)
    ensures
        match home {
            Some(h) => opt_view(r) == Some(join_spec(h@, ".treehouse"@)),
            None => r is None,
        },
{
    match home {
        Some(h) => Some(join(h, ".treehouse")),
        None => None,
    }
}

/// Where the result of the last update check is kept by default.
pub fn default_update_cache_path(home: Option<&str>) -> (r: Option<String>)
    ensures
        match home {
            Some(h) => opt_view(r) == Some(
                join_spec(join_spec(h@, ".treehouse"@), "update-check.json"@),
            ),
            None => r is None,
        },
{
    match home {
        Some(h) => Some(join(&join(h, ".treehouse"), "update-check.json")),
        None => None,
    }
}

/// Where the configuration of the user is kept by default.
pub fn default_user_config_path(home: Option<&str>) -> (r: Option<String>)
    ensures
        match home {
            Some(h) => opt_view(r) == Some(
                join_spec(join_spec(join_spec(h@, ".config"@), "treehouse"@), "config.toml"@),
            ),
            None => r is None,
        },
{
    match home {
        Some(h) => Some(join(&join(&join(h, ".config"), "treehouse"), "config.toml")),
        None => None,
    }
}

// ---------- an environment in memory ----------

/// An environment that holds its files in memory.
pub struct InMemoryEnv {
    files: Vec<(String, Vec<u8>)>,
    dirs: Vec<String>,
    vars: Vec<(String, String)>,
    root: String,
    cache_dir: String,
    config_dir: String,
}

/// The components of the paths of a list.
pub open spec fn rows(v: Seq<String>) -> Seq<Seq<Seq<char>>> {
    v.map_values(|s: String| comps(s@))
}

/// The components of the paths of a list of files.
pub open spec fn file_rows(v: Seq<(String, Vec<u8>)>) -> Seq<Seq<Seq<char>>> {
    v.map_values(|f: (String, Vec<u8>)| comps(f.0@))
}

/// Each path comes before the next.
pub open spec fn increasing(rs: Seq<Seq<Seq<char>>>) -> bool {
    forall|i: int, j: int| 0 <= i < j < rs.len() ==> row_less(#[trigger] rs[i], #[trigger] rs[j])
}

/// The path with components `r` is an entry of the directory with components
/// `dir`.
pub open spec fn entry_in(r: Seq<Seq<char>>, dir: Seq<Seq<char>>) -> bool {
    r.len() > 0 && r.last() != root_comp() && r.drop_last() == dir
}

/// The position of the first row equal to `r`; the length where there is none.
pub open spec fn row_at(rs: Seq<Seq<Seq<char>>>, r: Seq<Seq<char>>) -> int
    decreases rs.len(),
{
    if rs.len() == 0 || rs[0] == r {
        0
    } else {
        1 + row_at(rs.skip(1), r)
    }
}

proof fn lemma_row_at(rs: Seq<Seq<Seq<char>>>, r: Seq<Seq<char>>)
    ensures
        0 <= row_at(rs, r) <= rs.len(),
        row_at(rs, r) < rs.len() ==> rs[row_at(rs, r)] == r,
        forall|j: int| 0 <= j < row_at(rs, r) ==> rs[j] != r,
        row_at(rs, r) < rs.len() <==> rs.contains(r),
    decreases rs.len(),
{
    if rs.len() == 0 || rs[0] == r {
        if rs.len() > 0 {
            assert(rs.contains(rs[0]));
        }
    } else {
        let t = rs.skip(1);
        lemma_row_at(t, r);
        assert forall|j: int| 0 <= j < row_at(rs, r) implies rs[j] != r by {
            if j > 0 {
                assert(t[j - 1] == rs[j]);
            }
        }
        if row_at(rs, r) < rs.len() {
            assert(t[row_at(t, r)] == rs[row_at(rs, r)]);
        } else if rs.contains(r) {
            let k = choose|k: int| 0 <= k < rs.len() && rs[k] == r;
            assert(rs[k] != r);
        }
    }
}

proof fn lemma_row_at_unique(rs: Seq<Seq<Seq<char>>>, r: Seq<Seq<char>>, i: int)
    requires
        0 <= i <= rs.len(),
        i < rs.len() ==> rs[i] == r,
        forall|j: int| 0 <= j < i ==> rs[j] != r,
    ensures
        row_at(rs, r) == i,
{
    lemma_row_at(rs, r);
    if row_at(rs, r) < i {
        assert(rs[row_at(rs, r)] != r);
    } else if i < row_at(rs, r) {
        assert(rs[i] != r);
    }
}

/// The value of the last setting of a variable.
pub open spec fn var_of(vars: Seq<(String, String)>, name: Seq<char>) -> Option<Seq<char>>
    decreases vars.len(),
{
    if vars.len() == 0 {
        None
    } else if vars.last().0@ == name {
        Some(vars.last().1@)
    } else {
        var_of(vars.drop_last(), name)
    }
}

/// What `String::from_utf8_lossy` makes of a row of bytes.
pub uninterp spec fn lossy_text(bytes: Seq<u8>) -> Seq<char>;

/// `String::from_utf8_lossy`: the text that the bytes encode, where they
/// encode one; else a text with replacements.
#[verifier::external_body]
fn from_utf8_lossy(bytes: &[u8]) -> (r: String)
    ensures
        r@ == lossy_text(bytes@),
        valid_utf8(bytes@) ==> r@ == decode_utf8(bytes@),
{
    String::from_utf8_lossy(bytes).into_owned()
}

fn copy_bytes(data: &[u8]) -> (r: Vec<u8>)
    ensures
        r@ == data@,
{
    let mut out: Vec<u8> = Vec::new();
    let mut i: usize = 0;
    while i < data.len()
        invariant
            i <= data@.len(),
            out@ == data@.take(i as int),
        decreases data@.len() - i,
    {
        out.push(data[i]);
        i += 1;
    }
    assert(data@.take(data@.len() as int) =~= data@);
    out
}

impl InMemoryEnv {
    /// The directory that pools are kept in.
    pub closed spec fn root_text(&self) -> Seq<char> {
        self.root@
    }

    /// Some directory with these components was registered.
    pub closed spec fn has_dir(&self, r: Seq<Seq<char>>) -> bool {
        rows(self.dirs@).contains(r)
    }

    /// Some file with these components was written.
    pub closed spec fn has_file(&self, r: Seq<Seq<char>>) -> bool {
        file_rows(self.files@).contains(r)
    }

    /// The bytes of the file with these components.
    pub closed spec fn bytes_of(&self, r: Seq<Seq<char>>) -> Seq<u8> {
        self.files@[row_at(file_rows(self.files@), r)].1@
    }

    /// The value of a variable.
    pub closed spec fn var_text(&self, name: Seq<char>) -> Option<Seq<char>> {
        var_of(self.vars@, name)
    }

    /// Where the cache is kept.
    pub closed spec fn cache_text(&self) -> Seq<char> {
        self.cache_dir@
    }

    /// Where the configuration is kept.
    pub closed spec fn config_text(&self) -> Seq<char> {
        self.config_dir@
    }

    /// The two environments differ in nothing but files and directories.
    pub open spec fn same_places(&self, other: &InMemoryEnv) -> bool {
        &&& self.root_text() == other.root_text()
        &&& self.cache_text() == other.cache_text()
        &&& self.config_text() == other.config_text()
        &&& forall|name: Seq<char>| #[trigger] self.var_text(name) == other.var_text(name)
    }

    /// `self` is `before` with one file written, other files untouched.
    pub open spec fn file_written(
        &self,
        before: &InMemoryEnv,
        r: Seq<Seq<char>>,
        data: Seq<u8>,
    ) -> bool {
        &&& forall|q: Seq<Seq<char>>| #[trigger]
            self.has_file(q) == (q == r || before.has_file(q))
        &&& self.bytes_of(r) == data
        &&& forall|q: Seq<Seq<char>>|
            q != r && before.has_file(q) ==> #[trigger] self.bytes_of(q) == before.bytes_of(q)
    }

    /// An empty environment that keeps its pools in `pool_root`.
    pub fn new(pool_root: String) -> (r: InMemoryEnv)
        ensures
            r.root_text() == pool_root@,
            r.cache_text() == join_spec(pool_root@, "cache"@),
            r.config_text() == join_spec(pool_root@, "config"@),
            forall|q: Seq<Seq<char>>| !(#[trigger] r.has_file(q)) && !(#[trigger] r.has_dir(q)),
            forall|name: Seq<char>| #[trigger] r.var_text(name) is None,
    {
        let cache_dir = join(&pool_root, "cache");
        let config_dir = join(&pool_root, "config");
        InMemoryEnv {
            files: Vec::new(),
            dirs: Vec::new(),
            vars: Vec::new(),
            root: pool_root,
            cache_dir,
            config_dir,
        }
    }

    /// The environment with a variable set.
    pub fn with_env(self, key: &str, val: &str) -> (r: InMemoryEnv)
        ensures
            r.root_text() == self.root_text(),
            r.cache_text() == self.cache_text(),
            r.config_text() == self.config_text(),
            forall|q: Seq<Seq<char>>| #[trigger] r.has_file(q) == self.has_file(q),
            forall|q: Seq<Seq<char>>| #[trigger] r.bytes_of(q) == self.bytes_of(q),
            forall|q: Seq<Seq<char>>| #[trigger] r.has_dir(q) == self.has_dir(q),
            forall|name: Seq<char>| #[trigger]
                r.var_text(name) == if name == key@ {
                    Some(val@)
                } else {
                    self.var_text(name)
                },
    {
        let mut env = self;
        let ghost before = env.vars@;
        env.vars.push((key.to_owned(), val.to_owned()));
        assert(env.vars@.drop_last() =~= before);
        env
    }

    fn position(&self, path: &str) -> (i: usize)
        ensures
            i == row_at(file_rows(self.files@), comps(path@)),
            i <= self.files.len(),
    {
        let ghost rs = file_rows(self.files@);
        let mut i: usize = 0;
        while i < self.files.len() && !same_path(&self.files[i].0, path)
            invariant
                i <= self.files.len(),
                rs == file_rows(self.files@),
                forall|j: int| 0 <= j < i ==> rs[j] != comps(path@),
            decreases self.files.len() - i,
        {
            assert(rs[i as int] == comps(self.files@[i as int].0@));
            i += 1;
        }
        proof {
            if i < self.files.len() {
                assert(rs[i as int] == comps(self.files@[i as int].0@));
            }
            lemma_row_at_unique(rs, comps(path@), i as int);
        }
        i
    }

    fn put_file(&mut self, path: &str, data: &[u8])
        ensures
            final(self).file_written(old(self), comps(path@), data@),
            final(self).same_places(old(self)),
            forall|q: Seq<Seq<char>>| #[trigger] final(self).has_dir(q) == old(self).has_dir(q),
    {
        let i: usize = self.position(path);
        let ghost before = self.files@;
        let ghost rs = file_rows(before);
        let ghost r = comps(path@);
        proof {
            lemma_row_at(rs, r);
        }
        let bytes = copy_bytes(data);
        if i < self.files.len() {
            let key = self.files[i].0.clone();
            self.files.set(i, (key, bytes));
            proof {
                let after = file_rows(self.files@);
                assert(rs[i as int] == comps(before[i as int].0@));
                assert(after =~= rs);
                assert forall|q: Seq<Seq<char>>| q != r && rs.contains(q) implies self.files@[row_at(
                    after,
                    q,
                )].1@ == before[row_at(rs, q)].1@ by {
                    lemma_row_at(rs, q);
                }
            }
        } else {
            self.files.push((path.to_owned(), bytes));
            proof {
                let after = file_rows(self.files@);
                assert(after =~= rs.push(r));
                assert forall|q: Seq<Seq<char>>| #[trigger] after.contains(q) == (q == r
                    || rs.contains(q)) by {
                    if q == r {
                        assert(after[rs.len() as int] == r);
                    } else if rs.contains(q) {
                        let k = choose|k: int| 0 <= k < rs.len() && rs[k] == q;
                        assert(after[k] == q);
                    } else if after.contains(q) {
                        let k = choose|k: int| 0 <= k < after.len() && after[k] == q;
                        assert(rs[k] == q);
                    }
                }
                assert forall|j: int| 0 <= j < rs.len() implies after[j] != r by {
                    assert(after[j] == rs[j]);
                    assert(rs.contains(rs[j]));
                }
                lemma_row_at_unique(after, r, rs.len() as int);
                assert forall|q: Seq<Seq<char>>| q != r && rs.contains(q) implies self.files@[row_at(
                    after,
                    q,
                )].1@ == before[row_at(rs, q)].1@ by {
                    lemma_row_at(rs, q);
                    let k = row_at(rs, q);
                    assert(after[k] == rs[k]);
                    assert forall|j: int| 0 <= j < k implies after[j] != q by {
                        assert(after[j] == rs[j]);
                    }
                    lemma_row_at_unique(after, q, k);
                }
            }
        }
    }

    fn put_dir(&mut self, path: &str)
        ensures
            forall|q: Seq<Seq<char>>| #[trigger]
                final(self).has_dir(q) == (q == comps(path@) || old(self).has_dir(q)),
            final(self).same_places(old(self)),
            forall|q: Seq<Seq<char>>| #[trigger] final(self).has_file(q) == old(self).has_file(q),
            forall|q: Seq<Seq<char>>| #[trigger] final(self).bytes_of(q) == old(self).bytes_of(q),
    {
        let ghost rs = rows(self.dirs@);
        let ghost r = comps(path@);
        self.dirs.push(path.to_owned());
        proof {
            let after = rows(self.dirs@);
            assert(after =~= rs.push(r));
            assert forall|q: Seq<Seq<char>>| #[trigger] after.contains(q) == (q == r
                || rs.contains(q)) by {
                if q == r {
                    assert(after[rs.len() as int] == r);
                } else if rs.contains(q) {
                    let k = choose|k: int| 0 <= k < rs.len() && rs[k] == q;
                    assert(after[k] == q);
                } else if after.contains(q) {
                    let k = choose|k: int| 0 <= k < after.len() && after[k] == q;
                    assert(rs[k] == q);
                }
            }
        }
    }

    /// Puts a file into the environment. The directories above it are
    /// registered too, as far as they lie below the root of the pools.
    pub fn seed_file(&mut self, path: &str, content: &[u8])
        ensures
            final(self).file_written(old(self), comps(path@), content@),
            final(self).same_places(old(self)),
            forall|q: Seq<Seq<char>>| #[trigger]
                final(self).has_dir(q) == (old(self).has_dir(q) || above(
                    q,
                    comps(path@),
                    comps(old(self).root_text()),
                )),
    {
        self.put_file(path, content);
        let ghost start = *self;
        let ghost whole = comps(path@);
        let ghost base = comps(self.root_text());
        let mut current: Option<String> = parent(path);
        proof {
            law_parent_drops_last(path@);
            if current is None {
                lemma_above_none(whole, base, path@);
            } else {
                assert(whole.drop_last() =~= whole.take(whole.len() - 1));
            }
        }
        loop
            invariant
                base == comps(start.root_text()),
                self.file_written(old(self), whole, content@),
                self.same_places(&start),
                start.same_places(old(self)),
                base == comps(old(self).root_text()),
                whole == comps(path@),
                match current {
                    Some(p) => comps(p@).len() < whole.len() && comps(p@) == whole.take(
                        comps(p@).len() as int,
                    ) && forall|q: Seq<Seq<char>>| #[trigger]
                        self.has_dir(q) == (old(self).has_dir(q) || (above(q, whole, base)
                            && q.len() > comps(p@).len())),
                    None => forall|q: Seq<Seq<char>>| #[trigger]
                        self.has_dir(q) == (old(self).has_dir(q) || above(q, whole, base)),
                },
            ensures
                self.file_written(old(self), whole, content@),
                self.same_places(old(self)),
                forall|q: Seq<Seq<char>>| #[trigger]
                    self.has_dir(q) == (old(self).has_dir(q) || above(q, whole, base)),
            decreases
                    match current {
                        Some(p) => comps(p@).len() + 1,
                        None => 0,
                    },
        {
            match current {
                None => {
                    break;
                },
                Some(p) => {
                    let ghost pr = comps(p@);
                    if same_path(&p, &self.root) || !starts_with_path(&p, &self.root) {
                        assert forall|q: Seq<Seq<char>>| above(q, whole, base) implies q.len()
                            > pr.len() by {
                            if q.len() <= pr.len() {
                                assert(pr.take(base.len() as int) =~= whole.take(base.len() as int));
                                assert(q.take(base.len() as int) =~= whole.take(base.len() as int));
                                if pr == base {
                                    assert(q.len() == base.len());
                                    assert(q =~= base);
                                }
                            }
                        }
                        break;
                    }
                    self.put_dir(&p);
                    let up = parent(&p);
                    proof {
                        law_parent_drops_last(p@);
                        assert forall|q: Seq<Seq<char>>| #[trigger] above(q, whole, base) && q.len()
                            == pr.len() implies q == pr by {
                            assert(q =~= whole.take(pr.len() as int));
                        }
                        if pr.len() == base.len() {
                            assert(pr.take(base.len() as int) =~= pr);
                        }
                        assert(above(pr, whole, base));
                        match &up {
                            Some(u) => {
                                assert(comps(u@) =~= whole.take(pr.len() - 1));
                                assert forall|q: Seq<Seq<char>>| #[trigger]
                                    self.has_dir(q) == (old(self).has_dir(q) || (above(
                                        q,
                                        whole,
                                        base,
                                    ) && q.len() > comps(u@).len())) by {}
                            },
                            None => {
                                lemma_no_parent(p@);
                                assert forall|q: Seq<Seq<char>>| #[trigger]
                                    self.has_dir(q) == (old(self).has_dir(q) || above(
                                        q,
                                        whole,
                                        base,
                                    )) by {
                                    if above(q, whole, base) && q.len() < pr.len() {
                                        assert(base.len() < q.len());
                                    }
                                }
                            },
                        }
                    }
                    current = up;
                },
            }
        }
    }
}

/// `q` are the components of a directory above the path `whole` and below the
/// directory `base`.
pub open spec fn above(q: Seq<Seq<char>>, whole: Seq<Seq<char>>, base: Seq<Seq<char>>) -> bool {
    &&& base.len() < q.len() < whole.len()
    &&& q == whole.take(q.len() as int)
    &&& rows_begin(q, base)
}

proof fn lemma_no_parent(p: Seq<char>)
    requires
        parent_spec(p) is None,
    ensures
        comps(p).len() <= 1,
{
    let cs = comps(p);
    if cs.len() > 1 {
        crate::path::lemma_comps_wf(p);
        let k = cs.len() - 1;
        if cs[0] == root_comp() || cs[0] == crate::path::dot_comp() {
            assert(crate::path::is_name(cs.skip(1)[k - 1]));
        } else {
            assert(crate::path::is_name(cs[k]));
        }
        assert(crate::path::no_slash(cs[k]));
        assert(root_comp()[0] == '/');
        assert(cs[k] == cs.last());
    }
}

proof fn lemma_above_none(whole: Seq<Seq<char>>, base: Seq<Seq<char>>, p: Seq<char>)
    requires
        whole == comps(p),
        parent_spec(p) is None,
    ensures
        forall|q: Seq<Seq<char>>| !(#[trigger] above(q, whole, base)),
{
    lemma_no_parent(p);
}

impl TreehouseEnv for InMemoryEnv {
    open spec fn root_view(&self) -> Option<Seq<char>> {
        Some(self.root_text())
    }

    open spec fn cache_view(&self) -> Option<Seq<char>> {
        Some(join_spec(self.cache_text(), "update-check.json"@))
    }

    open spec fn config_view(&self) -> Option<Seq<char>> {
        Some(join_spec(self.config_text(), "config.toml"@))
    }

    open spec fn var_view(&self, name: Seq<char>) -> Option<Seq<char>> {
        self.var_text(name)
    }

    open spec fn file_view(&self, path: Seq<char>) -> FileView {
        if self.has_file(comps(path)) {
            FileView::Content(self.bytes_of(comps(path)))
        } else {
            FileView::Missing
        }
    }

    open spec fn text_view(&self, path: Seq<char>) -> Option<Seq<char>> {
        if self.has_file(comps(path)) {
            Some(lossy_text(self.bytes_of(comps(path))))
        } else {
            None
        }
    }

    open spec fn present_view(&self, path: Seq<char>) -> bool {
        self.has_file(comps(path)) || self.has_dir(comps(path))
    }

    /// The files and directories right below the path, each once, in order.
    open spec fn lists(&self, path: Seq<char>, entries: Seq<Seq<char>>) -> bool {
        let rs = entries.map_values(|e: Seq<char>| comps(e));
        &&& increasing(rs)
        &&& forall|q: Seq<Seq<char>>| #[trigger]
            rs.contains(q) == (entry_in(q, comps(path)) && (self.has_file(q) || self.has_dir(q)))
    }

    open spec fn listable(&self, path: Seq<char>) -> bool {
        true
    }

    fn pool_root(&self) -> (r: Option<String>) {
        Some(self.root.clone())
    }

    fn update_cache_path(&self) -> (r: Option<String>) {
        Some(join(&self.cache_dir, "update-check.json"))
    }

    fn user_config_path(&self) -> (r: Option<String>) {
        Some(join(&self.config_dir, "config.toml"))
    }

    fn read_file(&self, path: &str) -> (r: Result<String, EnvError>)
        ensures
            if self.has_file(comps(path@)) {
                r matches Ok(s) && s@ == lossy_text(self.bytes_of(comps(path@)))
            } else {
                r matches Err(e) && e.message@ == path@
            },
    {
        match self.read_bytes(path) {
            Ok(bytes) => Ok(from_utf8_lossy(bytes.as_slice())),
            Err(e) => Err(e),
        }
    }

    fn read_bytes(&self, path: &str) -> (r: Result<Vec<u8>, EnvError>)
        ensures
            !self.has_file(comps(path@)) ==> (r matches Err(e) && e.message@ == path@),
    {
        let i: usize = self.position(path);
        proof {
            lemma_row_at(file_rows(self.files@), comps(path@));
        }
        if i < self.files.len() {
            Ok(copy_bytes(self.files[i].1.as_slice()))
        } else {
            Err(EnvError { kind: EnvErrorKind::NotFound, message: path.to_owned() })
        }
    }

    fn write_file(&mut self, path: &str, data: &[u8]) -> (r: Result<(), EnvError>)
        ensures
            r is Ok,
            final(self).file_written(old(self), comps(path@), data@),
            final(self).same_places(old(self)),
            forall|q: Seq<Seq<char>>| #[trigger]
                final(self).has_dir(q) == (old(self).has_dir(q) || (parent_spec(path@) is Some && q
                    == comps(parent_spec(path@)->0))),
    {
        self.put_file(path, data);
        if let Some(dir) = parent(path) {
            self.put_dir(&dir);
        }
        Ok(())
    }

    fn ensure_dir(&mut self, path: &str) -> (r: Result<(), EnvError>)
        ensures
            r is Ok,
            forall|q: Seq<Seq<char>>| #[trigger]
                final(self).has_dir(q) == (old(self).has_dir(q) || q == comps(path@)),
            final(self).same_places(old(self)),
            forall|q: Seq<Seq<char>>| #[trigger] final(self).has_file(q) == old(self).has_file(q),
            forall|q: Seq<Seq<char>>| #[trigger] final(self).bytes_of(q) == old(self).bytes_of(q),
    {
        self.put_dir(path);
        Ok(())
    }

    fn path_exists(&self, path: &str) -> (r: bool) {
        let i: usize = self.position(path);
        proof {
            lemma_row_at(file_rows(self.files@), comps(path@));
        }
        if i < self.files.len() {
            return true;
        }
        let mut j: usize = 0;
        while j < self.dirs.len()
            invariant
                j <= self.dirs.len(),
                !self.has_file(comps(path@)),
                forall|k: int| 0 <= k < j ==> rows(self.dirs@)[k] != comps(path@),
            decreases self.dirs.len() - j,
        {
            assert(rows(self.dirs@)[j as int] == comps(self.dirs@[j as int]@));
            if same_path(&self.dirs[j], path) {
                assert(rows(self.dirs@).contains(comps(path@)));
                return true;
            }
            j += 1;
        }
        false
    }

    fn list_dir(&self, path: &str) -> (r: Result<Vec<String>, EnvError>) {
        let ghost dir = comps(path@);
        let mut out: Vec<String> = Vec::new();
        let mut i: usize = 0;
        let ghost dr = rows(self.dirs@);
        let ghost fr = file_rows(self.files@);
        while i < self.dirs.len()
            invariant
                i <= self.dirs.len(),
                dr == rows(self.dirs@),
                dir == comps(path@),
                increasing(rows(out@)),
                forall|q: Seq<Seq<char>>| #[trigger]
                    rows(out@).contains(q) == (entry_in(q, dir) && dr.take(i as int).contains(q)),
            decreases self.dirs.len() - i,
        {
            proof {
                lemma_take_more(dr, i as int);
                assert(dr[i as int] == comps(self.dirs@[i as int]@));
            }
            if is_entry_in(&self.dirs[i], path) {
                let d = self.dirs[i].clone();
                insert_sorted(&mut out, d);
            }
            i += 1;
        }
        assert(dr.take(self.dirs.len() as int) =~= dr);
        let mut j: usize = 0;
        while j < self.files.len()
            invariant
                j <= self.files.len(),
                dr == rows(self.dirs@),
                fr == file_rows(self.files@),
                dir == comps(path@),
                increasing(rows(out@)),
                forall|q: Seq<Seq<char>>| #[trigger]
                    rows(out@).contains(q) == (entry_in(q, dir) && (dr.contains(q) || fr.take(
                        j as int,
                    ).contains(q))),
            decreases self.files.len() - j,
        {
            proof {
                lemma_take_more(fr, j as int);
                assert(fr[j as int] == comps(self.files@[j as int].0@));
            }
            if is_entry_in(&self.files[j].0, path) {
                let f = self.files[j].0.clone();
                insert_sorted(&mut out, f);
            }
            j += 1;
        }
        assert(fr.take(self.files.len() as int) =~= fr);
        assert(views(out@).map_values(|e: Seq<char>| comps(e)) =~= rows(out@));
        Ok(out)
    }

    fn file_meta(&self, path: &str) -> (r: Result<FileMeta, EnvError>)
        ensures
            r matches Ok(m) ==> m.modified is None,
            r matches Err(e) ==> e.message@ == path@,
    {
        match self.read_bytes(path) {
            Ok(bytes) => Ok(FileMeta { size: bytes.len() as u64, modified: None }),
            Err(e) => Err(e),
        }
    }

    fn env_var(&self, name: &str) -> (r: Option<String>) {
        let mut i: usize = self.vars.len();
        assert(self.vars@.take(i as int) =~= self.vars@);
        while i > 0
            invariant
                i <= self.vars.len(),
                var_of(self.vars@.take(i as int), name@) == var_of(self.vars@, name@),
            decreases i,
        {
            i -= 1;
            proof {
                let t = self.vars@.take(i + 1);
                assert(t.drop_last() =~= self.vars@.take(i as int));
                assert(t.last() == self.vars@[i as int]);
            }
            if same_text(&self.vars[i].0, name) {
                return Some(self.vars[i].1.clone());
            }
        }
        None
    }

    fn env_var_os(&self, name: &str) -> (r: Option<String>)
        ensures
            opt_view(r) == self.var_text(name@),
    {
        self.env_var(name)
    }

    fn cwd(&self) -> (r: Option<String>)
        ensures
            opt_view(r) == self.var_text("PWD"@),
    {
        self.env_var("PWD")
    }
}

proof fn lemma_take_more(rs: Seq<Seq<Seq<char>>>, i: int)
    requires
        0 <= i < rs.len(),
    ensures
        forall|q: Seq<Seq<char>>| #[trigger]
            rs.take(i + 1).contains(q) == (rs.take(i).contains(q) || q == rs[i]),
{
    let short = rs.take(i);
    let long = rs.take(i + 1);
    assert forall|q: Seq<Seq<char>>| #[trigger] long.contains(q) == (short.contains(q) || q
        == rs[i]) by {
        if long.contains(q) {
            let k = choose|k: int| 0 <= k < long.len() && long[k] == q;
            if k < i {
                assert(short[k] == q);
            }
        }
        if short.contains(q) {
            let k = choose|k: int| 0 <= k < short.len() && short[k] == q;
            assert(long[k] == q);
        }
        assert(long[i] == rs[i]);
    }
}

fn is_entry_in(p: &str, dir: &str) -> (r: bool)
    ensures
        r == entry_in(comps(p@), comps(dir@)),
{
    proof {
        law_parent_drops_last(p@);
    }
    match parent(p) {
        Some(up) => same_path(&up, dir),
        None => false,
    }
}

/// Puts a path into a list in order, unless it is there.
fn insert_sorted(v: &mut Vec<String>, p: String)
    requires
        increasing(rows(old(v)@)),
    ensures
        increasing(rows(final(v)@)),
        forall|q: Seq<Seq<char>>| #[trigger]
            rows(final(v)@).contains(q) == (rows(old(v)@).contains(q) || q == comps(p@)),
{
    let ghost rs = rows(v@);
    let ghost r = comps(p@);
    let mut i: usize = 0;
    while i < v.len() && path_before(&v[i], &p)
        invariant
            i <= v.len(),
            v@ == old(v)@,
            rs == rows(v@),
            r == comps(p@),
            forall|j: int| 0 <= j < i ==> row_less(rs[j], r),
        decreases v.len() - i,
    {
        assert(rs[i as int] == comps(v@[i as int]@));
        i += 1;
    }
    if i < v.len() {
        assert(rs[i as int] == comps(v@[i as int]@));
        if same_path(&v[i], &p) {
            assert(rs.contains(rs[i as int]));
            return;
        }
    }
    proof {
        if i < v.len() {
            lemma_row_order(rs[i as int], r, r);
        }
        assert forall|j: int| i <= j < rs.len() implies row_less(r, rs[j]) by {
            if j > i {
                lemma_row_order(r, rs[i as int], rs[j]);
            }
        }
    }
    v.insert(i, p);
    proof {
        let after = rows(v@);
        assert(after =~= rs.insert(i as int, r));
        assert forall|a: int, b: int| 0 <= a < b < after.len() implies row_less(
            #[trigger] after[a],
            #[trigger] after[b],
        ) by {
            if a < i && b < i {
                assert(after[a] == rs[a] && after[b] == rs[b]);
            } else if a < i && b == i {
                assert(after[a] == rs[a]);
            } else if a < i {
                assert(after[a] == rs[a] && after[b] == rs[b - 1]);
            } else if a == i {
                assert(after[b] == rs[b - 1]);
            } else {
                assert(after[a] == rs[a - 1] && after[b] == rs[b - 1]);
            }
        }
        assert forall|q: Seq<Seq<char>>| #[trigger] after.contains(q) == (rs.contains(q) || q
            == r) by {
            if rs.contains(q) {
                let k = choose|k: int| 0 <= k < rs.len() && rs[k] == q;
                if k < i {
                    assert(after[k] == q);
                } else {
                    assert(after[k + 1] == q);
                }
            }
            if q == r {
                assert(after[i as int] == r);
            }
            if after.contains(q) && q != r {
                let k = choose|k: int| 0 <= k < after.len() && after[k] == q;
                if k < i {
                    assert(rs[k] == q);
                } else {
                    assert(rs[k - 1] == q);
                }
            }
        }
    }
}

/// What is joined to a directory by a name is an entry of it, and of no other.
pub proof fn law_entries_are_right_below(dir: Seq<char>, name: Seq<char>, other: Seq<char>)
    requires
        dir.len() > 0,
        crate::path::is_name(name),
    ensures
        entry_in(comps(join_spec(dir, name)), comps(dir)),
        entry_in(comps(join_spec(dir, name)), comps(other)) ==> comps(other) == comps(dir),
        !entry_in(comps(dir), comps(dir)),
{
    crate::path::law_joined_name_is_last(dir, name, seq!['/']);
    assert(comps(dir).push(name).drop_last() =~= comps(dir));
    assert(name != root_comp()) by {
        assert(root_comp()[0] == '/');
    }
    if entry_in(comps(dir), comps(dir)) {
        assert(comps(dir).drop_last().len() == comps(dir).len());
    }
}

/// An environment that is kept has the same places and variables, and every file
/// that was there is still there with the same content.
pub proof fn law_kept_loses_nothing<E: TreehouseEnv>(
    before: &E,
    after: &E,
    name: Seq<char>,
    q: Seq<char>,
)
    requires
        kept(before, after),
    ensures
        after.root_view() == before.root_view(),
        after.cache_view() == before.cache_view(),
        after.config_view() == before.config_view(),
        after.var_view(name) == before.var_view(name),
        before.file_view(q) is Content ==> after.file_view(q) == before.file_view(q),
        before.text_view(q) is Some ==> after.text_view(q) == before.text_view(q),
        before.present_view(q) ==> after.present_view(q),
{
}

/// Writing a file in memory changes that file alone.
pub proof fn law_write_changes_one_file(
    before: &InMemoryEnv,
    after: &InMemoryEnv,
    path: Seq<char>,
    data: Seq<u8>,
    other: Seq<char>,
)
    requires
        after.file_written(before, comps(path), data),
    ensures
        after.file_view(path) == FileView::Content(data),
        comps(other) != comps(path) ==> after.file_view(other) == before.file_view(other),
{
    assert(after.has_file(comps(path)));
    assert(after.has_file(comps(other)) == (comps(other) == comps(path) || before.has_file(
        comps(other),
    )));
}

} // verus!
