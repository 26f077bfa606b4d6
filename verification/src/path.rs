//! Slash-separated paths, held as text.
//!
//! A path is read as the row of its components: `/` for the root of an
//! absolute path, then the names between the separators. Empty names and `.`
//! do not count, but for a `.` that a relative path begins with.

use vstd::prelude::*;
use vstd::string::*;

use crate::text::{begins, begins_with, first_of, lemma_first_of, lemma_first_of_unique, lemma_views_push, lemma_text_order, opt_view, same_text, split, split_on, text_before, text_less, views};

verus! {

/// The component that stands for the root directory.
pub open spec fn root_comp() -> Seq<char> {
    seq!['/']
}

/// The component that stands for the current directory.
pub open spec fn dot_comp() -> Seq<char> {
    seq!['.']
}

/// The component that stands for the parent directory.
pub open spec fn up_comp() -> Seq<char> {
    seq!['.', '.']
}

/// Whether the path begins at the root directory.
pub open spec fn absolute(p: Seq<char>) -> bool {
    p.len() > 0 && p[0] == '/'
}

/// The pieces that are neither empty nor `.`.
pub open spec fn named(ps: Seq<Seq<char>>) -> Seq<Seq<char>>
    decreases ps.len(),
{
    if ps.len() == 0 {
        seq![]
    } else {
        let rest = named(ps.drop_last());
        if ps.last().len() == 0 || ps.last() == dot_comp() {
            rest
        } else {
            rest.push(ps.last())
        }
    }
}

/// The components of a path.
pub open spec fn comps(p: Seq<char>) -> Seq<Seq<char>> {
    let ps = split(p, '/');
    if absolute(p) {
        seq![root_comp()] + named(ps)
    } else if ps[0] == dot_comp() {
        seq![dot_comp()] + named(ps)
    } else {
        named(ps)
    }
}

/// Names joined by a separator.
pub open spec fn joined(cs: Seq<Seq<char>>) -> Seq<char>
    decreases cs.len(),
{
    if cs.len() == 0 {
        seq![]
    } else if cs.len() == 1 {
        cs[0]
    } else {
        joined(cs.drop_last()) + seq!['/'] + cs.last()
    }
}

/// The path with the given components.
pub open spec fn rendered(cs: Seq<Seq<char>>) -> Seq<char> {
    if cs.len() > 0 && cs[0] == root_comp() {
        root_comp() + joined(cs.skip(1))
    } else {
        joined(cs)
    }
}

/// `b` as seen from `a`: `b` itself where it is absolute.
pub open spec fn join_spec(a: Seq<char>, b: Seq<char>) -> Seq<char> {
    if absolute(b) {
        b
    } else if a.len() == 0 || a.last() == '/' {
        a + b
    } else {
        a + seq!['/'] + b
    }
}

/// The last name of the path; none where the path ends in the root, in a
/// leading `.` or in `..`.
pub open spec fn file_name_spec(p: Seq<char>) -> Option<Seq<char>> {
    let cs = comps(p);
    if cs.len() == 0 || cs.last() == root_comp() || cs.last() == dot_comp() || cs.last()
        == up_comp() {
        None
    } else {
        Some(cs.last())
    }
}

/// The path without its last component; none for the root and the empty path.
pub open spec fn parent_spec(p: Seq<char>) -> Option<Seq<char>> {
    let cs = comps(p);
    if cs.len() == 0 || cs.last() == root_comp() {
        None
    } else {
        Some(rendered(cs.drop_last()))
    }
}

/// How many components the two rows have in common at their start.
pub open spec fn common(a: Seq<Seq<char>>, b: Seq<Seq<char>>) -> nat
    decreases a.len(),
{
    if a.len() == 0 || b.len() == 0 || a[0] != b[0] {
        0
    } else {
        1 + common(a.skip(1), b.skip(1))
    }
}

/// The way from `base` to `cwd`: one `..` for each component that only `base`
/// has, then the components that only `cwd` has. `.` where both are equal,
/// none where they have nothing in common.
pub open spec fn relative(base: Seq<char>, cwd: Seq<char>) -> Option<Seq<char>> {
    let b = comps(base);
    let c = comps(cwd);
    let k = common(b, c);
    if k == 0 {
        None
    } else if k == b.len() && k == c.len() {
        Some(dot_comp())
    } else {
        Some(joined(Seq::new((b.len() - k) as nat, |i: int| up_comp()) + c.skip(k as int)))
    }
}

pub fn is_absolute(p: &str) -> (r: bool)
    ensures
        r == absolute(p@),
{
    let n: usize = p.unicode_len();
    n > 0 && p.get_char(0) == '/'
}

/// Appends `b` to `a`; an absolute `b` replaces `a`.
pub fn join(a: &str, b: &str) -> (r: String)
    ensures
        r@ == join_spec(a@, b@),
{
    if is_absolute(b) {
        return b.to_owned();
    }
    let n: usize = a.unicode_len();
    let mut s = a.to_owned();
    if n > 0 && a.get_char(n - 1) != '/' {
        proof {
            reveal_strlit("/");
            assert("/"@ =~= seq!['/']);
        }
        s.append("/");
    }
    s.append(b);
    s
}

fn is_named(piece: &str) -> (r: bool)
    ensures
        r == !(piece@.len() == 0 || piece@ == dot_comp()),
{
    proof {
        reveal_strlit(".");
        assert("."@ =~= dot_comp());
    }
    !piece.is_empty() && !same_text(piece, ".")
}

pub proof fn lemma_split_nonempty(s: Seq<char>, c: char)
    ensures
        split(s, c).len() > 0,
{
    lemma_first_of(s, c);
}

/// The components of a path.
pub fn components(p: &str) -> (r: Vec<String>)
    ensures
        views(r@) == comps(p@),
{
    let ps = split_on(p, '/');
    let mut out: Vec<String> = Vec::new();
    proof {
        lemma_split_nonempty(p@, '/');
        reveal_strlit("/");
        reveal_strlit(".");
        assert("/"@ =~= root_comp());
        assert("."@ =~= dot_comp());
        assert(views(ps@)[0] == ps@[0]@);
    }
    if is_absolute(p) {
        out.push("/".to_owned());
    } else if same_text(&ps[0], ".") {
        out.push(".".to_owned());
    }
    let ghost head = views(out@);
    let mut i: usize = 0;
    assert(views(ps@).take(0) =~= seq![]);
    assert(head + named(views(ps@).take(0)) =~= head);
    while i < ps.len()
        invariant
            i <= ps.len(),
            views(out@) == head + named(views(ps@).take(i as int)),
        decreases ps.len() - i,
    {
        let ghost before = views(out@);
        proof {
            let t = views(ps@).take(i + 1);
            assert(t.drop_last() =~= views(ps@).take(i as int));
            assert(t.last() == ps@[i as int]@);
        }
        if is_named(&ps[i]) {
            out.push(ps[i].clone());
            assert(views(out@) =~= before.push(ps@[i as int]@));
        }
        i += 1;
    }
    assert(views(ps@).take(ps.len() as int) =~= views(ps@));
    assert(views(out@) =~= comps(p@));
    out
}

/// Names joined by a separator.
fn join_names(cs: &Vec<String>, from: usize, to: usize) -> (r: String)
    requires
        from <= to <= cs.len(),
    ensures
        r@ == joined(views(cs@).subrange(from as int, to as int)),
{
    let mut s = String::new();
    let mut i: usize = from;
    proof {
        reveal_strlit("/");
        assert("/"@ =~= seq!['/']);
        assert(views(cs@).subrange(from as int, from as int) =~= seq![]);
    }
    while i < to
        invariant
            from <= i <= to <= cs.len(),
            "/"@ == seq!['/'],
            s@ == joined(views(cs@).subrange(from as int, i as int)),
        decreases to - i,
    {
        let ghost t = views(cs@).subrange(from as int, i + 1);
        assert(t.drop_last() =~= views(cs@).subrange(from as int, i as int));
        assert(t.last() == cs@[i as int]@);
        if i > from {
            s.append("/");
        }
        s.append(&cs[i]);
        assert(s@ =~= joined(t));
        i += 1;
    }
    s
}

/// The last name of the path, where it ends in one.
pub fn file_name(p: &str) -> (r: Option<String>)
    ensures
        opt_view(r) == file_name_spec(p@),
{
    let cs = components(p);
    let n: usize = cs.len();
    assert(views(cs@).len() == n);
    if n == 0 {
        return None;
    }
    proof {
        reveal_strlit("/");
        reveal_strlit(".");
        reveal_strlit("..");
        assert("/"@ =~= root_comp());
        assert("."@ =~= dot_comp());
        assert(".."@ =~= up_comp());
        assert(views(cs@).last() == cs@.last()@);
    }
    let last = &cs[n - 1];
    if same_text(last, "/") || same_text(last, ".") || same_text(last, "..") {
        None
    } else {
        Some(last.clone())
    }
}

/// The path without its last component.
pub fn parent(p: &str) -> (r: Option<String>)
    ensures
        opt_view(r) == parent_spec(p@),
{
    let cs = components(p);
    let n: usize = cs.len();
    assert(views(cs@).len() == n);
    if n == 0 {
        return None;
    }
    proof {
        reveal_strlit("/");
        assert("/"@ =~= root_comp());
        assert(views(cs@).last() == cs@.last()@);
        assert(views(cs@)[0] == cs@[0]@);
    }
    if same_text(&cs[n - 1], "/") {
        return None;
    }
    if n > 1 && same_text(&cs[0], "/") {
        let mut s = "/".to_owned();
        s.append(&join_names(&cs, 1, n - 1));
        assert(views(cs@).subrange(1, n - 1) =~= views(cs@).drop_last().skip(1));
        assert(views(cs@).drop_last()[0] == cs@[0]@);
        Some(s)
    } else {
        assert(views(cs@).subrange(0, n - 1) =~= views(cs@).drop_last());
        Some(join_names(&cs, 0, n - 1))
    }
}

proof fn lemma_common(a: Seq<Seq<char>>, b: Seq<Seq<char>>)
    ensures
        common(a, b) <= a.len(),
        common(a, b) <= b.len(),
        forall|i: int| 0 <= i < common(a, b) ==> a[i] == b[i],
        common(a, b) < a.len() && common(a, b) < b.len() ==> a[common(a, b) as int] != b[common(
            a,
            b,
        ) as int],
    decreases a.len(),
{
    if a.len() == 0 || b.len() == 0 || a[0] != b[0] {
    } else {
        lemma_common(a.skip(1), b.skip(1));
        let k = common(a, b);
        assert forall|i: int| 0 <= i < k implies a[i] == b[i] by {
            if i > 0 {
                assert(a.skip(1)[i - 1] == b.skip(1)[i - 1]);
            }
        }
        if k < a.len() && k < b.len() {
            assert(a.skip(1)[k - 1] != b.skip(1)[k - 1]);
        }
    }
}

proof fn lemma_common_unique(a: Seq<Seq<char>>, b: Seq<Seq<char>>, k: int)
    requires
        0 <= k <= a.len(),
        k <= b.len(),
        forall|i: int| 0 <= i < k ==> a[i] == b[i],
        k < a.len() && k < b.len() ==> a[k] != b[k],
    ensures
        common(a, b) == k,
{
    lemma_common(a, b);
    if common(a, b) < k {
        assert(a[common(a, b) as int] == b[common(a, b) as int]);
    } else if k < common(a, b) {
        assert(a[k] == b[k]);
    }
}

/// The path of `cwd` relative to `base`.
pub fn pathdiff_rel(base: &str, cwd: &str) -> (r: Option<String>)
    ensures
        opt_view(r) == relative(base@, cwd@),
{
    let b = components(base);
    let c = components(cwd);
    let ghost bv = views(b@);
    let ghost cv = views(c@);
    let mut k: usize = 0;
    while k < b.len() && k < c.len() && same_text(&b[k], &c[k])
        invariant
            k <= b.len(),
            k <= c.len(),
            bv == views(b@),
            cv == views(c@),
            forall|i: int| 0 <= i < k ==> bv[i] == cv[i],
        decreases b.len() - k,
    {
        assert(bv[k as int] == b@[k as int]@ && cv[k as int] == c@[k as int]@);
        k += 1;
    }
    proof {
        if k < b.len() && k < c.len() {
            assert(bv[k as int] == b@[k as int]@ && cv[k as int] == c@[k as int]@);
        }
        lemma_common_unique(bv, cv, k as int);
    }
    if k == 0 {
        return None;
    }
    proof {
        reveal_strlit(".");
        assert("."@ =~= dot_comp());
        reveal_strlit("..");
        assert(".."@ =~= up_comp());
    }
    if k == b.len() && k == c.len() {
        return Some(".".to_owned());
    }
    let mut names: Vec<String> = Vec::new();
    let mut i: usize = k;
    while i < b.len()
        invariant
            k <= i <= b.len(),
            ".."@ == up_comp(),
            views(names@) =~= Seq::new((i - k) as nat, |j: int| up_comp()),
        decreases b.len() - i,
    {
        proof {
            broadcast use lemma_views_push;
        }
        names.push("..".to_owned());
        i += 1;
    }
    let ghost ups = views(names@);
    let mut j: usize = k;
    while j < c.len()
        invariant
            k <= j <= c.len(),
            cv == views(c@),
            views(names@) =~= ups + cv.subrange(k as int, j as int),
        decreases c.len() - j,
    {
        assert(cv[j as int] == c@[j as int]@);
        proof {
            broadcast use lemma_views_push;
        }
        names.push(c[j].clone());
        j += 1;
    }
    proof {
        assert(cv.subrange(k as int, c.len() as int) =~= cv.skip(k as int));
        assert(views(names@).subrange(0, names.len() as int) =~= views(names@));
    }
    Some(join_names(&names, 0, names.len()))
}

/// `rel` stays below the directory that it is relative to.
pub open spec fn stays_inside(rel: Seq<char>) -> bool {
    !(rel == up_comp() || begins(rel, seq!['.', '.', '/']) || begins(rel, seq!['.', '.', '\\']))
}

/// `cwd` is the directory `dir` or lies below it.
pub open spec fn inside(dir: Seq<char>, cwd: Seq<char>) -> bool {
    relative(dir, cwd) matches Some(rel) && stays_inside(rel)
}

/// Whether `cwd` is the directory `dir` or lies below it. Both are taken as
/// they are: resolved by the caller.
pub fn is_inside(dir: &str, cwd: &str) -> (r: bool)
    ensures
        r == inside(dir@, cwd@),
{
    match pathdiff_rel(dir, cwd) {
        Some(rel) => {
            proof {
                reveal_strlit("..");
                reveal_strlit("../");
                reveal_strlit("..\\");
                assert(".."@ =~= up_comp());
                assert("../"@ =~= seq!['.', '.', '/']);
                assert("..\\"@ =~= seq!['.', '.', '\\']);
            }
            !(same_text(&rel, "..") || begins_with(&rel, "../") || begins_with(&rel, "..\\"))
        },
        None => false,
    }
}

// ---------- equality and order of paths ----------

/// Whether two paths have the same components.
pub fn same_path(a: &str, b: &str) -> (r: bool)
    ensures
        r == (comps(a@) == comps(b@)),
{
    let x = components(a);
    let y = components(b);
    same_rows(&x, &y)
}

fn same_rows(x: &Vec<String>, y: &Vec<String>) -> (r: bool)
    ensures
        r == (views(x@) == views(y@)),
{
    assert(views(x@).len() == x.len() && views(y@).len() == y.len());
    if x.len() != y.len() {
        return false;
    }
    let mut i: usize = 0;
    while i < x.len()
        invariant
            i <= x.len(),
            x.len() == y.len(),
            forall|j: int| 0 <= j < i ==> views(x@)[j] == views(y@)[j],
        decreases x.len() - i,
    {
        assert(views(x@)[i as int] == x@[i as int]@ && views(y@)[i as int] == y@[i as int]@);
        if !same_text(&x[i], &y[i]) {
            return false;
        }
        i += 1;
    }
    assert(views(x@) =~= views(y@));
    true
}

/// `cs` begins with the components `start`.
pub open spec fn rows_begin(cs: Seq<Seq<char>>, start: Seq<Seq<char>>) -> bool {
    start.len() <= cs.len() && cs.take(start.len() as int) == start
}

/// Whether the components of `p` begin with those of `base`.
pub fn starts_with_path(p: &str, base: &str) -> (r: bool)
    ensures
        r == rows_begin(comps(p@), comps(base@)),
{
    let x = components(p);
    let y = components(base);
    assert(views(x@).len() == x.len() && views(y@).len() == y.len());
    if y.len() > x.len() {
        return false;
    }
    let mut i: usize = 0;
    let ghost start = views(x@).take(y.len() as int);
    while i < y.len()
        invariant
            i <= y.len() <= x.len(),
            start == views(x@).take(y.len() as int),
            views(x@) == comps(p@),
            views(y@) == comps(base@),
            forall|j: int| 0 <= j < i ==> start[j] == views(y@)[j],
        decreases y.len() - i,
    {
        assert(start[i as int] == x@[i as int]@ && views(y@)[i as int] == y@[i as int]@);
        if !same_text(&x[i], &y[i]) {
            return false;
        }
        i += 1;
    }
    assert(start =~= views(y@));
    true
}

/// The place of the kind of a component in the order of paths.
pub open spec fn rank(c: Seq<char>) -> int {
    if c == root_comp() {
        0
    } else if c == dot_comp() {
        1
    } else if c == up_comp() {
        2
    } else {
        3
    }
}

/// The order of components: the root, `.`, `..`, then the names by their text.
pub open spec fn comp_less(x: Seq<char>, y: Seq<char>) -> bool {
    rank(x) < rank(y) || (rank(x) == 3 && rank(y) == 3 && text_less(x, y))
}

/// The order of paths, component by component; a path comes before those that
/// continue it.
pub open spec fn row_less(a: Seq<Seq<char>>, b: Seq<Seq<char>>) -> bool
    decreases a.len(),
{
    if b.len() == 0 {
        false
    } else if a.len() == 0 {
        true
    } else if a[0] == b[0] {
        row_less(a.skip(1), b.skip(1))
    } else {
        comp_less(a[0], b[0])
    }
}

fn rank_of(c: &str) -> (r: u8)
    ensures
        r == rank(c@),
{
    proof {
        reveal_strlit("/");
        reveal_strlit(".");
        reveal_strlit("..");
        assert("/"@ =~= root_comp());
        assert("."@ =~= dot_comp());
        assert(".."@ =~= up_comp());
    }
    if same_text(c, "/") {
        0
    } else if same_text(c, ".") {
        1
    } else if same_text(c, "..") {
        2
    } else {
        3
    }
}

/// Whether the path `a` comes before the path `b`.
pub fn path_before(a: &str, b: &str) -> (r: bool)
    ensures
        r == row_less(comps(a@), comps(b@)),
{
    let x = components(a);
    let y = components(b);
    let ghost xv = views(x@);
    let ghost yv = views(y@);
    let mut i: usize = 0;
    assert(xv.skip(0) =~= xv && yv.skip(0) =~= yv);
    while i < x.len() && i < y.len()
        invariant
            i <= x.len(),
            i <= y.len(),
            xv == views(x@),
            yv == views(y@),
            row_less(xv.skip(i as int), yv.skip(i as int)) == row_less(xv, yv),
            xv == comps(a@),
            yv == comps(b@),
        decreases x.len() - i,
    {
        let ghost p = xv.skip(i as int);
        let ghost q = yv.skip(i as int);
        assert(p[0] == x@[i as int]@ && q[0] == y@[i as int]@);
        if !same_text(&x[i], &y[i]) {
            let m: u8 = rank_of(&x[i]);
            let n: u8 = rank_of(&y[i]);
            return m < n || (m == 3 && n == 3 && text_before(&x[i], &y[i]));
        }
        assert(p.skip(1) =~= xv.skip(i + 1));
        assert(q.skip(1) =~= yv.skip(i + 1));
        i += 1;
    }
    assert(xv.len() == x.len() && yv.len() == y.len());
    i < y.len()
}

proof fn lemma_comp_order(x: Seq<char>, y: Seq<char>, z: Seq<char>)
    ensures
        !(comp_less(x, y) && comp_less(y, x)),
        x != y ==> comp_less(x, y) || comp_less(y, x),
        comp_less(x, y) && comp_less(y, z) ==> comp_less(x, z),
        !comp_less(x, x),
{
    lemma_text_order(x, y, z);
    lemma_text_order(x, x, x);
}

/// The order of paths is a strict order in which any two different paths
/// compare.
pub proof fn lemma_row_order(a: Seq<Seq<char>>, b: Seq<Seq<char>>, c: Seq<Seq<char>>)
    ensures
        !(row_less(a, b) && row_less(b, a)),
        a != b ==> row_less(a, b) || row_less(b, a),
        row_less(a, b) && row_less(b, c) ==> row_less(a, c),
        !row_less(a, a),
    decreases a.len() + b.len() + c.len(),
{
    if a.len() > 0 {
        lemma_row_order(a.skip(1), Seq::empty(), Seq::empty());
    }
    if a.len() > 0 && b.len() > 0 {
        lemma_comp_order(a[0], b[0], a[0]);
        if c.len() > 0 {
            lemma_comp_order(a[0], b[0], c[0]);
            lemma_row_order(a.skip(1), b.skip(1), c.skip(1));
        } else {
            lemma_row_order(a.skip(1), b.skip(1), c);
        }
        if a != b && a[0] == b[0] {
            assert(a.skip(1) != b.skip(1)) by {
                if a.skip(1) == b.skip(1) {
                    assert(a =~= seq![a[0]] + a.skip(1));
                    assert(b =~= seq![b[0]] + b.skip(1));
                }
            }
        }
    } else if a.len() == 0 && b.len() == 0 {
        assert(a =~= b);
    }
}

// ---------- the algebra of components ----------

/// The text has no separator in it.
pub open spec fn no_slash(s: Seq<char>) -> bool {
    forall|i: int| 0 <= i < s.len() ==> s[i] != '/'
}

/// A name as it occurs between separators: not empty, not `.`, no separator.
pub open spec fn is_name(s: Seq<char>) -> bool {
    s.len() > 0 && s != dot_comp() && no_slash(s)
}

/// All of the row are names.
pub open spec fn all_names(cs: Seq<Seq<char>>) -> bool {
    forall|i: int| 0 <= i < cs.len() ==> is_name(#[trigger] cs[i])
}

/// A row of components as a path has it: names, after the root or a leading
/// `.` where there is one.
pub open spec fn comps_wf(cs: Seq<Seq<char>>) -> bool {
    if cs.len() > 0 && (cs[0] == root_comp() || cs[0] == dot_comp()) {
        all_names(cs.skip(1))
    } else {
        all_names(cs)
    }
}

proof fn lemma_split_pieces(s: Seq<char>)
    ensures
        split(s, '/').len() > 0,
        forall|i: int| 0 <= i < split(s, '/').len() ==> no_slash(#[trigger] split(s, '/')[i]),
    decreases s.len(),
{
    lemma_first_of(s, '/');
    let i = first_of(s, '/');
    if i < s.len() {
        lemma_split_pieces(s.skip(i + 1));
        let rest = split(s.skip(i + 1), '/');
        assert forall|k: int| 0 <= k < split(s, '/').len() implies no_slash(
            #[trigger] split(s, '/')[k],
        ) by {
            if k == 0 {
                assert(split(s, '/')[0] == s.take(i));
            } else {
                assert(split(s, '/')[k] == rest[k - 1]);
            }
        }
    }
}

proof fn lemma_split_whole(s: Seq<char>)
    requires
        no_slash(s),
    ensures
        split(s, '/') == seq![s],
{
    lemma_first_of(s, '/');
}

proof fn lemma_split_append(a: Seq<char>, b: Seq<char>)
    requires
        no_slash(b),
    ensures
        split(a + seq!['/'] + b, '/') == split(a, '/').push(b),
    decreases a.len(),
{
    let whole = a + seq!['/'] + b;
    lemma_first_of(a, '/');
    let i = first_of(a, '/');
    if i >= a.len() {
        assert forall|j: int| 0 <= j < a.len() implies whole[j] != '/' by {
            assert(whole[j] == a[j]);
        }
        assert(whole[a.len() as int] == '/');
        lemma_first_of_unique(whole, '/', a.len() as int);
        assert(whole.take(a.len() as int) =~= a);
        assert(whole.skip(a.len() as int + 1) =~= b);
        lemma_split_whole(b);
        assert(split(whole, '/') =~= seq![a].push(b));
    } else {
        assert(whole[i] == a[i]);
        assert forall|j: int| 0 <= j < i implies whole[j] != '/' by {
            assert(whole[j] == a[j]);
        }
        lemma_first_of_unique(whole, '/', i);
        assert(whole.take(i) =~= a.take(i));
        assert(whole.skip(i + 1) =~= a.skip(i + 1) + seq!['/'] + b);
        lemma_split_append(a.skip(i + 1), b);
        assert(split(whole, '/') =~= split(a, '/').push(b));
    }
}

proof fn lemma_split_joined(ps: Seq<Seq<char>>)
    requires
        ps.len() > 0,
        forall|i: int| 0 <= i < ps.len() ==> no_slash(#[trigger] ps[i]),
    ensures
        split(joined(ps), '/') == ps,
    decreases ps.len(),
{
    if ps.len() == 1 {
        lemma_split_whole(ps[0]);
        assert(seq![ps[0]] =~= ps);
    } else {
        let front = ps.drop_last();
        assert forall|i: int| 0 <= i < front.len() implies no_slash(#[trigger] front[i]) by {
            assert(front[i] == ps[i]);
        }
        lemma_split_joined(front);
        lemma_split_append(joined(front), ps.last());
        assert(front.push(ps.last()) =~= ps);
    }
}

proof fn lemma_named_pieces(ps: Seq<Seq<char>>)
    requires
        forall|i: int| 0 <= i < ps.len() ==> no_slash(#[trigger] ps[i]),
    ensures
        all_names(named(ps)),
    decreases ps.len(),
{
    if ps.len() > 0 {
        let front = ps.drop_last();
        assert forall|i: int| 0 <= i < front.len() implies no_slash(#[trigger] front[i]) by {
            assert(front[i] == ps[i]);
        }
        lemma_named_pieces(front);
        assert(no_slash(ps[ps.len() - 1]));
    }
}

proof fn lemma_named_names(ps: Seq<Seq<char>>)
    requires
        all_names(ps),
    ensures
        named(ps) == ps,
    decreases ps.len(),
{
    if ps.len() > 0 {
        let front = ps.drop_last();
        assert(all_names(front)) by {
            assert forall|i: int| 0 <= i < front.len() implies is_name(#[trigger] front[i]) by {
                assert(front[i] == ps[i]);
            }
        }
        lemma_named_names(front);
        assert(is_name(ps[ps.len() - 1]));
        assert(front.push(ps.last()) =~= ps);
    } else {
        assert(named(ps) =~= ps);
    }
}

proof fn lemma_named_head(x: Seq<char>, ps: Seq<Seq<char>>)
    requires
        x.len() == 0 || x == dot_comp(),
        all_names(ps),
    ensures
        named(seq![x] + ps) == ps,
    decreases ps.len(),
{
    let whole = seq![x] + ps;
    if ps.len() == 0 {
        assert(whole.drop_last() =~= seq![]);
        assert(whole.last() == x);
        assert(named(whole) =~= ps) by {
            reveal_with_fuel(named, 2);
        }
    } else {
        let front = ps.drop_last();
        assert forall|i: int| 0 <= i < front.len() implies is_name(#[trigger] front[i]) by {
            assert(front[i] == ps[i]);
        }
        lemma_named_head(x, front);
        assert(whole.drop_last() =~= seq![x] + front);
        assert(is_name(ps[ps.len() - 1]));
        assert(front.push(ps.last()) =~= ps);
    }
}

/// The components of a path are well formed.
pub proof fn lemma_comps_wf(p: Seq<char>)
    ensures
        comps_wf(comps(p)),
{
    let ps = split(p, '/');
    lemma_split_pieces(p);
    lemma_named_pieces(ps);
    let names = named(ps);
    let cs = comps(p);
    if absolute(p) {
        assert(cs.skip(1) =~= names);
        assert(cs[0] == root_comp());
    } else if ps[0] == dot_comp() {
        assert(cs.skip(1) =~= names);
        assert(cs[0] == dot_comp());
    } else {
        if cs.len() > 0 {
            assert(is_name(cs[0]));
            if cs[0] == root_comp() {
                assert(cs[0][0] == '/');
            }
        }
    }
}

/// A path made of components has those components.
pub proof fn lemma_comps_rendered(cs: Seq<Seq<char>>)
    requires
        comps_wf(cs),
    ensures
        comps(rendered(cs)) == cs,
{
    let p = rendered(cs);
    if cs.len() == 0 {
        assert(joined(cs) =~= seq![]);
        lemma_split_whole(p);
        let ps = split(p, '/');
        assert(ps.drop_last() =~= seq![]);
        assert(named(ps) =~= seq![]) by {
            reveal_with_fuel(named, 2);
        }
        assert(comps(p) =~= cs);
    } else if cs[0] == root_comp() {
        let names = cs.skip(1);
        assert(p[0] == '/');
        assert(first_of(p, '/') == 0);
        assert(p.skip(1) =~= joined(names));
        assert(p.take(0) =~= seq![]);
        if names.len() == 0 {
            assert(joined(names) =~= seq![]);
            lemma_split_whole(joined(names));
            let ps = split(p, '/');
            assert(ps =~= seq![Seq::<char>::empty(), Seq::<char>::empty()]);
            assert(ps.drop_last() =~= seq![Seq::<char>::empty()]);
            assert(ps.drop_last().drop_last() =~= seq![]);
            assert(named(ps) =~= seq![]) by {
                reveal_with_fuel(named, 3);
            }
        } else {
            assert forall|i: int| 0 <= i < names.len() implies no_slash(#[trigger] names[i]) by {
                assert(is_name(names[i]));
            }
            lemma_split_joined(names);
            assert(split(p, '/') =~= seq![Seq::<char>::empty()] + names);
            lemma_named_head(Seq::<char>::empty(), names);
        }
        assert(comps(p) =~= cs);
    } else {
        assert forall|i: int| 0 <= i < cs.len() implies no_slash(#[trigger] cs[i]) by {
            if cs[0] == dot_comp() && i == 0 {
            } else if cs[0] == dot_comp() {
                assert(is_name(cs.skip(1)[i - 1]));
            } else {
                assert(is_name(cs[i]));
            }
        }
        lemma_split_joined(cs);
        assert(!absolute(p)) by {
            lemma_joined_head(cs);
            if cs[0].len() > 0 {
                assert(no_slash(cs[0]));
            }
        }
        if cs[0] == dot_comp() {
            assert(cs =~= seq![cs[0]] + cs.skip(1));
            lemma_named_head(cs[0], cs.skip(1));
        } else {
            lemma_named_names(cs);
        }
        assert(comps(p) =~= cs);
    }
}

proof fn lemma_joined_head(cs: Seq<Seq<char>>)
    requires
        cs.len() > 0,
        cs[0].len() > 0,
    ensures
        joined(cs).len() > 0,
        joined(cs)[0] == cs[0][0],
    decreases cs.len(),
{
    if cs.len() > 1 {
        assert(cs.drop_last()[0] == cs[0]);
        lemma_joined_head(cs.drop_last());
    }
}

/// Taking the parent drops the last component.
pub proof fn law_parent_drops_last(p: Seq<char>)
    ensures
        parent_spec(p) matches Some(q) ==> comps(p).len() > 0 && comps(q) == comps(p).drop_last(),
{
    if let Some(q) = parent_spec(p) {
        let cs = comps(p);
        lemma_comps_wf(p);
        let front = cs.drop_last();
        assert(comps_wf(front)) by {
            if front.len() > 0 {
                assert(front[0] == cs[0]);
                if cs[0] == root_comp() || cs[0] == dot_comp() {
                    assert forall|i: int| 0 <= i < front.skip(1).len() implies is_name(
                        #[trigger] front.skip(1)[i],
                    ) by {
                        assert(front.skip(1)[i] == cs.skip(1)[i]);
                    }
                } else {
                    assert forall|i: int| 0 <= i < front.len() implies is_name(
                        #[trigger] front[i],
                    ) by {
                        assert(front[i] == cs[i]);
                    }
                }
            }
        }
        lemma_comps_rendered(front);
    }
}

/// A directory lies inside itself, and whatever lies inside it continues its
/// components.
pub proof fn law_inside_by_components(dir: Seq<char>, cwd: Seq<char>)
    requires
        comps(dir).len() > 0,
    ensures
        comps(cwd) == comps(dir) ==> inside(dir, cwd),
        inside(dir, cwd) ==> comps(dir).len() <= comps(cwd).len() && comps(cwd).take(
            comps(dir).len() as int,
        ) == comps(dir),
{
    let d = comps(dir);
    let c = comps(cwd);
    lemma_common(d, c);
    let k = common(d, c) as int;
    if c == d {
        lemma_common_unique(d, c, d.len() as int);
        assert(relative(dir, cwd) == Some(dot_comp()));
        assert(dot_comp().len() == 1 && up_comp().len() == 2);
    }
    if inside(dir, cwd) {
        if k < d.len() {
            let rel = relative(dir, cwd)->0;
            let row = Seq::new((d.len() - k) as nat, |i: int| up_comp()) + c.skip(k);
            assert(row[0] == up_comp());
            if row.len() == 1 {
                assert(rel == up_comp());
            } else {
                lemma_joined_up(row);
                assert(begins(rel, seq!['.', '.', '/']));
            }
        } else {
            assert(c.take(d.len() as int) =~= d);
        }
    }
}

proof fn lemma_joined_up(row: Seq<Seq<char>>)
    requires
        row.len() > 1,
        row[0] == up_comp(),
    ensures
        begins(joined(row), seq!['.', '.', '/']),
    decreases row.len(),
{
    let front = row.drop_last();
    assert(front[0] == row[0]);
    let text = joined(front) + seq!['/'] + row.last();
    if row.len() == 2 {
        assert(joined(front) == up_comp());
        assert(text.take(3) =~= seq!['.', '.', '/']);
    } else {
        lemma_joined_up(front);
        assert(text.take(3) =~= joined(front).take(3));
    }
}

/// A directory lies inside another exactly if it is that directory or its
/// components continue those of the other with something that does not lead up
/// again. Nothing lies inside a path without components.
pub proof fn law_inside_is_exact(dir: Seq<char>, cwd: Seq<char>)
    ensures
        comps(dir).len() == 0 ==> !inside(dir, cwd),
        comps(dir).len() > 0 ==> (inside(dir, cwd) <==> {
            let n = comps(dir).len() as int;
            &&& n <= comps(cwd).len()
            &&& comps(cwd).take(n) == comps(dir)
            &&& n < comps(cwd).len() ==> comps(cwd)[n] != seq!['.', '.'] && !begins(
                comps(cwd)[n],
                seq!['.', '.', '\\'],
            )
        }),
{
    let d = comps(dir);
    let c = comps(cwd);
    let n = d.len() as int;
    lemma_common(d, c);
    if n > 0 {
        law_inside_by_components(dir, cwd);
        if n <= c.len() && c.take(n) == d {
            assert forall|i: int| 0 <= i < n implies d[i] == c[i] by {
                assert(c.take(n)[i] == c[i]);
            }
            lemma_common_unique(d, c, n);
            if n == c.len() {
                assert(c =~= d);
            } else {
                let row = Seq::new(0, |i: int| up_comp()) + c.skip(n);
                assert(row =~= c.skip(n));
                assert(relative(dir, cwd) == Some(joined(c.skip(n))));
                lemma_comps_wf(cwd);
                let first = c[n];
                assert(is_name(first)) by {
                    if c[0] == root_comp() || c[0] == dot_comp() {
                        assert(c.skip(1)[n - 1] == c[n]);
                    }
                }
                assert(c.skip(n)[0] == first);
                lemma_joined_first(c.skip(n));
                let rel = joined(c.skip(n));
                if first != up_comp() && !begins(first, seq!['.', '.', '\\']) {
                    if rel == up_comp() {
                        assert(rel.take(first.len() as int) =~= first);
                        if c.skip(n).len() > 1 {
                            assert(rel[first.len() as int] == '/');
                            assert(first.len() < 2);
                            assert(up_comp()[first.len() as int] == '.');
                        }
                    }
                    if begins(rel, seq!['.', '.', '/']) {
                        let t = seq!['.', '.', '/'];
                        assert(rel.take(3)[0] == '.' && rel.take(3)[1] == '.' && rel.take(3)[2] == '/');
                        if first.len() == 1 {
                            assert(rel[0] == first[0]);
                            assert(first =~= dot_comp());
                        } else if first.len() == 2 {
                            assert(first[0] == rel[0] && first[1] == rel[1]);
                            assert(first =~= up_comp());
                        } else {
                            assert(first[2] == rel[2]);
                        }
                    }
                    if begins(rel, seq!['.', '.', '\\']) {
                        assert(rel.take(3)[0] == '.' && rel.take(3)[1] == '.' && rel.take(3)[2] == '\\');
                        if first.len() == 1 {
                            assert(rel[0] == first[0]);
                            assert(first =~= dot_comp());
                        } else if first.len() == 2 {
                            assert(first[0] == rel[0] && first[1] == rel[1]);
                            assert(first =~= up_comp());
                        } else {
                            assert(first[0] == rel[0] && first[1] == rel[1] && first[2] == rel[2]);
                            assert(first.take(3) =~= seq!['.', '.', '\\']);
                        }
                    }
                } else if first == up_comp() {
                    if c.skip(n).len() > 1 {
                        lemma_joined_up(c.skip(n));
                    }
                } else {
                    assert(first.take(3) == seq!['.', '.', '\\']);
                    assert(rel.take(3) =~= first.take(3));
                }
            }
        }
    }
}

/// A joined row begins with its first name, and a separator follows where more
/// names do.
proof fn lemma_joined_first(row: Seq<Seq<char>>)
    requires
        row.len() > 0,
    ensures
        joined(row).len() >= row[0].len(),
        forall|i: int| 0 <= i < row[0].len() ==> joined(row)[i] == row[0][i],
        row.len() == 1 ==> joined(row) == row[0],
        row.len() > 1 ==> joined(row).len() > row[0].len() && joined(row)[row[0].len() as int]
            == '/',
    decreases row.len(),
{
    if row.len() > 1 {
        let front = row.drop_last();
        assert(front[0] == row[0]);
        lemma_joined_first(front);
    }
}

/// A name that is joined to a path becomes its last component; its parent has
/// the components of the path. An absolute path is not joined to anything.
pub proof fn law_joined_name_is_last(a: Seq<char>, b: Seq<char>, c: Seq<char>)
    requires
        a.len() > 0,
        is_name(b),
        absolute(c),
    ensures
        comps(join_spec(a, b)) == comps(a).push(b),
        b != up_comp() ==> file_name_spec(join_spec(a, b)) == Some(b),
        parent_spec(join_spec(a, b)) matches Some(q) && comps(q) == comps(a),
        join_spec(a, c) == c,
{
    assert(no_slash(b));
    let p = join_spec(a, b);
    assert(p[0] == a[0]);
    if a.last() == '/' {
        let front = a.drop_last();
        assert(a =~= front + seq!['/'] + Seq::<char>::empty());
        assert(p =~= front + seq!['/'] + b);
        lemma_split_append(front, b);
        lemma_split_append(front, Seq::empty());
        lemma_split_pieces(front);
        let ps = split(front, '/');
        assert(split(p, '/').drop_last() =~= ps);
        assert(split(a, '/').drop_last() =~= ps);
        assert(split(p, '/')[0] == ps[0] && split(a, '/')[0] == ps[0]);
        assert(named(split(p, '/')) == named(split(a, '/')).push(b));
    } else {
        lemma_split_append(a, b);
        lemma_split_pieces(a);
        assert(split(p, '/').drop_last() =~= split(a, '/'));
        assert(split(p, '/')[0] == split(a, '/')[0]);
        assert(named(split(p, '/')) == named(split(a, '/')).push(b));
    }
    assert(comps(p) =~= comps(a).push(b));
    assert(b != root_comp()) by {
        assert(root_comp()[0] == '/');
    }
    law_parent_drops_last(p);
    assert(comps(p).drop_last() =~= comps(a));
}

/// What is joined to a directory lies inside it, unless it leads up.
pub proof fn law_joined_name_lies_inside(a: Seq<char>, b: Seq<char>)
    requires
        a.len() > 0,
        is_name(b),
        b != up_comp(),
        !begins(b, seq!['.', '.', '\\']),
    ensures
        comps(a).len() > 0 ==> inside(a, join_spec(a, b)) && !inside(join_spec(a, b), a),
{
    law_joined_name_is_last(a, b, seq!['/']);
    law_inside_is_exact(a, join_spec(a, b));
    law_inside_is_exact(join_spec(a, b), a);
    assert(comps(a).push(b).take(comps(a).len() as int) =~= comps(a));
}

/// A path without a separator at its start is not absolute, and one with it is.
pub proof fn law_absolute_begins_at_the_root(p: Seq<char>)
    ensures
        absolute(p) <==> begins(p, seq!['/']),
        absolute(p) ==> comps(p).len() > 0 && comps(p)[0] == seq!['/'],
{
    if p.len() > 0 {
        assert(p.take(1) =~= seq![p[0]]);
        if begins(p, seq!['/']) {
            assert(p.take(1)[0] == '/');
        }
    }
}

/// Paths are ordered by the first component in which they differ; a path comes
/// before those that continue it, and names come by their text.
pub proof fn law_path_order_by_first_difference(
    p: Seq<Seq<char>>,
    a: Seq<char>,
    x: Seq<Seq<char>>,
    b: Seq<char>,
    y: Seq<Seq<char>>,
)
    requires
        is_name(a) && a != up_comp(),
        is_name(b) && b != up_comp(),
    ensures
        text_less(a, b) ==> row_less(p + (seq![a] + x), p + (seq![b] + y)),
        row_less(p, p + (seq![a] + x)),
    decreases p.len(),
{
    let s = p + (seq![a] + x);
    let t = p + (seq![b] + y);
    assert(a != root_comp() && b != root_comp()) by {
        assert(root_comp()[0] == '/');
    }
    crate::text::lemma_text_order(a, b, a);
    if p.len() > 0 {
        law_path_order_by_first_difference(p.skip(1), a, x, b, y);
        assert(s.skip(1) =~= p.skip(1) + (seq![a] + x));
        assert(t.skip(1) =~= p.skip(1) + (seq![b] + y));
        assert(s[0] == p[0] && t[0] == p[0]);
    } else {
        assert(s[0] == a && t[0] == b);
    }
}

/// The way from one directory to another goes up once for each component that
/// only the first has, and down those that only the second has. It is a dot
/// where both are the same, and there is none where they have nothing in
/// common.
pub proof fn law_way_goes_up_and_down(base: Seq<char>, cwd: Seq<char>, k: int)
    requires
        0 <= k <= comps(base).len(),
        k <= comps(cwd).len(),
        forall|i: int| 0 <= i < k ==> comps(base)[i] == comps(cwd)[i],
        k < comps(base).len() && k < comps(cwd).len() ==> comps(base)[k] != comps(cwd)[k],
    ensures
        relative(base, cwd) is None <==> k == 0,
        k > 0 && comps(base) == comps(cwd) ==> relative(base, cwd) == Some(seq!['.']),
        k > 0 && comps(base) != comps(cwd) ==> relative(base, cwd) == Some(
            joined(
                Seq::new((comps(base).len() - k) as nat, |i: int| seq!['.', '.']) + comps(cwd).skip(k),
            ),
        ),
{
    lemma_common_unique(comps(base), comps(cwd), k);
    let ups = Seq::new((comps(base).len() - k) as nat, |i: int| up_comp());
    assert(ups =~= Seq::new((comps(base).len() - k) as nat, |i: int| seq!['.', '.']));
    if k == comps(base).len() && k == comps(cwd).len() {
        assert(comps(base) =~= comps(cwd));
    }
}

/// The root comes before everything else, then the current directory, then the
/// parent, then names.
pub proof fn law_special_components_come_first(name: Seq<char>)
    requires
        is_name(name),
        name != up_comp(),
    ensures
        comp_less(root_comp(), dot_comp()),
        comp_less(dot_comp(), up_comp()),
        comp_less(up_comp(), name),
        !comp_less(name, up_comp()),
{
    assert(root_comp()[0] == '/' && dot_comp()[0] == '.');
    assert(up_comp().len() == 2 && dot_comp().len() == 1 && root_comp().len() == 1);
    assert(name != root_comp()) by {
        if name == root_comp() {
            assert(name[0] == '/');
        }
    }
}

} // verus!
