//! Text as sequences of characters: the small string operations that the
//! rest of the library is written with.

use vstd::prelude::*;
use vstd::string::*;
use vstd::utf8::*;

verus! {

/// The view of an optional text.
pub open spec fn opt_view(s: Option<String>) -> Option<Seq<char>> {
    match s {
        Some(t) => Some(t@),
        None => None,
    }
}

/// The view of an optional borrowed text.
pub open spec fn opt_str_view(s: Option<&str>) -> Option<Seq<char>> {
    match s {
        Some(t) => Some(t@),
        None => None,
    }
}

/// The views of a list of texts.
pub open spec fn views(v: Seq<String>) -> Seq<Seq<char>> {
    v.map_values(|s: String| s@)
}

/// Appending a text to a list appends its view to the views.
pub broadcast proof fn lemma_views_push(v: Seq<String>, s: String)
    ensures
        #[trigger] views(v.push(s)) == views(v).push(s@),
{
    assert(views(v.push(s)) =~= views(v).push(s@));
}

/// Whether two texts hold the same characters.
pub fn same_text(a: &str, b: &str) -> (r: bool)
    ensures
        r == (a@ == b@),
{
    let x = a.as_bytes();
    let y = b.as_bytes();
    proof {
        encode_utf8_decode_utf8(a@);
        encode_utf8_decode_utf8(b@);
    }
    if x.len() != y.len() {
        return false;
    }
    let n: usize = x.len();
    let mut i: usize = 0;
    while i < n
        invariant
            i <= n,
            n == x@.len(),
            n == y@.len(),
            x@ == encode_utf8(a@),
            y@ == encode_utf8(b@),
            forall|j: int| 0 <= j < i ==> x@[j] == y@[j],
        decreases n - i,
    {
        if x[i] != y[i] {
            return false;
        }
        i += 1;
    }
    assert(x@ =~= y@);
    true
}

/// The characters of a text, one by one.
pub fn chars_of(s: &str) -> (r: Vec<char>)
    ensures
        r@ == s@,
{
    let mut out: Vec<char> = Vec::new();
    for c in it: s.chars()
        invariant
            out@ == it.seq().take(it.index()),
    {
        out.push(c);
    }
    out
}

/// A copy of an optional text.
pub fn copy_opt(s: &Option<String>) -> (r: Option<String>)
    ensures
        opt_view(r) == opt_view(*s),
        r == *s,
{
    match s {
        Some(t) => Some(t.clone()),
        None => None,
    }
}

/// A copy of a list of texts.
pub fn copy_list(v: &Vec<String>) -> (r: Vec<String>)
    ensures
        r@ == v@,
{
    let mut out: Vec<String> = Vec::new();
    let mut i: usize = 0;
    while i < v.len()
        invariant
            i <= v.len(),
            out@ == v@.take(i as int),
        decreases v.len() - i,
    {
        out.push(v[i].clone());
        i += 1;
    }
    assert(v@.take(v.len() as int) =~= v@);
    out
}

// ---------- prefixes and suffixes ----------

/// `s` begins with `p`.
pub open spec fn begins(s: Seq<char>, p: Seq<char>) -> bool {
    p.len() <= s.len() && s.take(p.len() as int) == p
}

/// `s` ends with `p`.
pub open spec fn ends(s: Seq<char>, p: Seq<char>) -> bool {
    p.len() <= s.len() && s.skip(s.len() - p.len()) == p
}

pub fn begins_with(s: &str, p: &str) -> (r: bool)
    ensures
        r == begins(s@, p@),
{
    let n: usize = s.unicode_len();
    let m: usize = p.unicode_len();
    if m > n {
        return false;
    }
    let head = s.substring_char(0, m);
    assert(s@.subrange(0, m as int) =~= s@.take(m as int));
    same_text(head, p)
}

pub fn ends_with(s: &str, p: &str) -> (r: bool)
    ensures
        r == ends(s@, p@),
{
    let n: usize = s.unicode_len();
    let m: usize = p.unicode_len();
    if m > n {
        return false;
    }
    let tail = s.substring_char(n - m, n);
    assert(s@.subrange(n - m, n as int) =~= s@.skip(n - m));
    same_text(tail, p)
}

/// What follows the prefix `p`, where `s` begins with it.
pub fn after_prefix(s: &str, p: &str) -> (r: Option<String>)
    ensures
        match r {
            Some(t) => begins(s@, p@) && t@ == s@.skip(p@.len() as int),
            None => !begins(s@, p@),
        },
{
    if begins_with(s, p) {
        let n: usize = s.unicode_len();
        let m: usize = p.unicode_len();
        assert(s@.subrange(m as int, n as int) =~= s@.skip(m as int));
        Some(s.substring_char(m, n).to_owned())
    } else {
        None
    }
}

// ---------- first occurrence and splitting ----------

/// The position of the first `c` in `s`, or the length of `s`.
pub open spec fn first_of(s: Seq<char>, c: char) -> int
    decreases s.len(),
{
    if s.len() == 0 || s[0] == c {
        0
    } else {
        1 + first_of(s.skip(1), c)
    }
}

pub proof fn lemma_first_of(s: Seq<char>, c: char)
    ensures
        0 <= first_of(s, c) <= s.len(),
        first_of(s, c) < s.len() ==> s[first_of(s, c)] == c,
        forall|j: int| 0 <= j < first_of(s, c) ==> s[j] != c,
    decreases s.len(),
{
    if s.len() == 0 || s[0] == c {
    } else {
        let t = s.skip(1);
        lemma_first_of(t, c);
        assert forall|j: int| 0 <= j < first_of(s, c) implies s[j] != c by {
            if j > 0 {
                assert(t[j - 1] == s[j]);
            }
        }
        if first_of(s, c) < s.len() {
            assert(t[first_of(t, c)] == s[first_of(s, c)]);
        }
    }
}

pub proof fn lemma_first_of_unique(s: Seq<char>, c: char, i: int)
    requires
        0 <= i <= s.len(),
        i < s.len() ==> s[i] == c,
        forall|j: int| 0 <= j < i ==> s[j] != c,
    ensures
        first_of(s, c) == i,
{
    lemma_first_of(s, c);
    let k = first_of(s, c);
    if k < i {
        assert(s[k] != c);
    } else if i < k {
        assert(s[i] != c);
    }
}

/// The pieces of `s` between the occurrences of `c`: one more than there are
/// occurrences.
pub open spec fn split(s: Seq<char>, c: char) -> Seq<Seq<char>>
    decreases s.len(),
    via split_decreases
{
    let i = first_of(s, c);
    if i >= s.len() {
        seq![s]
    } else {
        seq![s.take(i)] + split(s.skip(i + 1), c)
    }
}

#[via_fn]
proof fn split_decreases(s: Seq<char>, c: char) {
    lemma_first_of(s, c);
}

/// Position of the first `c` in `v` at or after `from`.
fn find_char(v: &Vec<char>, from: usize, c: char) -> (i: usize)
    requires
        from <= v.len(),
    ensures
        from <= i <= v.len(),
        i == from + first_of(v@.skip(from as int), c),
{
    let mut i: usize = from;
    while i < v.len() && v[i] != c
        invariant
            from <= i <= v.len(),
            forall|j: int| from <= j < i ==> v@[j] != c,
        decreases v.len() - i,
    {
        i += 1;
    }
    proof {
        let t = v@.skip(from as int);
        assert forall|j: int| 0 <= j < i - from implies t[j] != c by {
            assert(t[j] == v@[from + j]);
        }
        lemma_first_of_unique(t, c, i - from);
    }
    i
}

/// The pieces of `s` between the occurrences of `c`.
pub fn split_on(s: &str, c: char) -> (r: Vec<String>)
    ensures
        views(r@) == split(s@, c),
{
    let v = chars_of(s);
    let mut out: Vec<String> = Vec::new();
    let mut from: usize = 0;
    let n: usize = v.len();
    assert(s@.skip(0) =~= s@);
    assert(views(out@) + split(s@, c) =~= split(s@, c));
    loop
        invariant_except_break
            v@ == s@,
            n == v.len(),
            from <= n,
            views(out@) + split(s@.skip(from as int), c) == split(s@, c),
        ensures
            views(out@) == split(s@, c),
        decreases n - from,
    {
        let i: usize = find_char(&v, from, c);
        let piece = s.substring_char(from, i).to_owned();
        let ghost rest = s@.skip(from as int);
        let ghost before = views(out@);
        out.push(piece);
        assert(views(out@) =~= before.push(piece@));
        assert(piece@ =~= rest.take(i - from));
        if i >= n {
            assert(rest.take(i - from) =~= rest);
            assert(views(out@) =~= before + split(rest, c));
            break;
        }
        proof {
            assert(rest.skip(i - from + 1) =~= s@.skip(i + 1));
            assert(views(out@) + split(s@.skip(i + 1), c) =~= before + split(rest, c));
        }
        from = i + 1;
    }
    out
}

// ---------- order ----------

/// The order of texts, character by character; a text comes before those that
/// continue it.
pub open spec fn text_less(a: Seq<char>, b: Seq<char>) -> bool
    decreases a.len(),
{
    if b.len() == 0 {
        false
    } else if a.len() == 0 {
        true
    } else if a[0] == b[0] {
        text_less(a.skip(1), b.skip(1))
    } else {
        a[0] < b[0]
    }
}

/// Whether `a` comes before `b`.
pub fn text_before(a: &str, b: &str) -> (r: bool)
    ensures
        r == text_less(a@, b@),
{
    let x = chars_of(a);
    let y = chars_of(b);
    let mut i: usize = 0;
    assert(a@.skip(0) =~= a@ && b@.skip(0) =~= b@);
    while i < x.len() && i < y.len()
        invariant
            i <= x.len(),
            i <= y.len(),
            x@ == a@,
            y@ == b@,
            text_less(a@.skip(i as int), b@.skip(i as int)) == text_less(a@, b@),
        decreases x.len() - i,
    {
        let ghost p = a@.skip(i as int);
        let ghost q = b@.skip(i as int);
        assert(p[0] == x@[i as int] && q[0] == y@[i as int]);
        if x[i] != y[i] {
            return x[i] < y[i];
        }
        assert(p.skip(1) =~= a@.skip(i + 1));
        assert(q.skip(1) =~= b@.skip(i + 1));
        i += 1;
    }
    i < y.len()
}

/// The order of texts is a strict order in which any two different texts
/// compare.
pub proof fn lemma_text_order(a: Seq<char>, b: Seq<char>, c: Seq<char>)
    ensures
        !(text_less(a, b) && text_less(b, a)),
        a != b ==> text_less(a, b) || text_less(b, a),
        text_less(a, b) && text_less(b, c) ==> text_less(a, c),
        !text_less(a, a),
    decreases a.len() + b.len() + c.len(),
{
    if a.len() > 0 {
        lemma_text_order(a.skip(1), Seq::empty(), Seq::empty());
    }
    if a.len() > 0 && b.len() > 0 {
        if c.len() > 0 {
            lemma_text_order(a.skip(1), b.skip(1), c.skip(1));
        } else {
            lemma_text_order(a.skip(1), b.skip(1), c);
        }
        if a != b && a[0] == b[0] {
            assert(a.skip(1) != b.skip(1)) by {
                if a.skip(1) == b.skip(1) {
                    assert(a =~= seq![a[0]] + a.skip(1));
                    assert(b =~= seq![b[0]] + b.skip(1));
                }
            }
        }
    } else if a.len() == 0 && b.len() == 0 {
        assert(a =~= b);
    }
}

// ---------- whitespace ----------

/// The characters with the Unicode property `White_Space`.
pub open spec fn is_space(c: char) -> bool {
    ||| '\u{9}' <= c <= '\u{d}'
    ||| c == '\u{20}'
    ||| c == '\u{85}'
    ||| c == '\u{a0}'
    ||| c == '\u{1680}'
    ||| '\u{2000}' <= c <= '\u{200a}'
    ||| c == '\u{2028}'
    ||| c == '\u{2029}'
    ||| c == '\u{202f}'
    ||| c == '\u{205f}'
    ||| c == '\u{3000}'
}

/// `s` without the whitespace at its start.
pub open spec fn trimmed_start(s: Seq<char>) -> Seq<char>
    decreases s.len(),
{
    if s.len() > 0 && is_space(s[0]) {
        trimmed_start(s.skip(1))
    } else {
        s
    }
}

/// `s` without the whitespace at its end.
pub open spec fn trimmed_end(s: Seq<char>) -> Seq<char>
    decreases s.len(),
{
    if s.len() > 0 && is_space(s.last()) {
        trimmed_end(s.drop_last())
    } else {
        s
    }
}

/// `s` without the whitespace at either end.
pub open spec fn trimmed(s: Seq<char>) -> Seq<char> {
    trimmed_end(trimmed_start(s))
}

/// All characters are whitespace.
pub open spec fn all_space(s: Seq<char>) -> bool {
    forall|i: int| 0 <= i < s.len() ==> is_space(#[trigger] s[i])
}

/// Whitespace around a text that neither begins nor ends with some is trimmed
/// away, and nothing else.
pub proof fn lemma_trim_around(l: Seq<char>, w: Seq<char>, r: Seq<char>)
    requires
        all_space(l),
        all_space(r),
        w.len() > 0,
        !is_space(w[0]),
        !is_space(w.last()),
    ensures
        trimmed(l + w + r) == w,
    decreases l.len() + r.len(),
{
    let s = l + w + r;
    if l.len() > 0 {
        assert(s[0] == l[0]);
        assert(s.skip(1) =~= l.skip(1) + w + r);
        assert forall|i: int| 0 <= i < l.skip(1).len() implies is_space(#[trigger] l.skip(1)[i]) by {
            assert(l.skip(1)[i] == l[i + 1]);
        }
        lemma_trim_around(l.skip(1), w, r);
    } else {
        assert(s[0] == w[0]);
        lemma_trim_end(w, r);
        assert(s =~= w + r);
    }
}

proof fn lemma_trim_end(w: Seq<char>, r: Seq<char>)
    requires
        all_space(r),
        w.len() > 0,
        !is_space(w.last()),
    ensures
        trimmed_end(w + r) == w,
    decreases r.len(),
{
    let s = w + r;
    if r.len() > 0 {
        assert(s.last() == r.last());
        assert(s.drop_last() =~= w + r.drop_last());
        assert forall|i: int| 0 <= i < r.drop_last().len() implies is_space(
            #[trigger] r.drop_last()[i],
        ) by {
            assert(r.drop_last()[i] == r[i]);
        }
        lemma_trim_end(w, r.drop_last());
    } else {
        assert(s =~= w);
    }
}

/// A text splits at its first separator.
pub proof fn lemma_split_first(a: Seq<char>, rest: Seq<char>, c: char)
    requires
        forall|i: int| 0 <= i < a.len() ==> a[i] != c,
    ensures
        split(a.push(c) + rest, c) == seq![a] + split(rest, c),
{
    let s = a.push(c) + rest;
    assert(s[a.len() as int] == c);
    assert forall|j: int| 0 <= j < a.len() implies s[j] != c by {
        assert(s[j] == a[j]);
    }
    lemma_first_of_unique(s, c, a.len() as int);
    assert(s.take(a.len() as int) =~= a);
    assert(s.skip(a.len() as int + 1) =~= rest);
}

/// A text without a separator is one piece.
pub proof fn lemma_split_none(a: Seq<char>, c: char)
    requires
        forall|i: int| 0 <= i < a.len() ==> a[i] != c,
    ensures
        split(a, c) == seq![a],
{
    lemma_first_of_unique(a, c, a.len() as int);
}

pub fn is_space_char(c: char) -> (r: bool)
    ensures
        r == is_space(c),
{
    ('\u{9}' <= c && c <= '\u{d}') || c == '\u{20}' || c == '\u{85}' || c == '\u{a0}' || c
        == '\u{1680}' || ('\u{2000}' <= c && c <= '\u{200a}') || c == '\u{2028}' || c == '\u{2029}'
        || c == '\u{202f}' || c == '\u{205f}' || c == '\u{3000}'
}

/// `s` without the whitespace at either end.
pub fn trim(s: &str) -> (r: String)
    ensures
        r@ == trimmed(s@),
{
    let v = chars_of(s);
    let n: usize = v.len();
    let mut a: usize = 0;
    assert(s@.skip(0) =~= s@);
    while a < n && is_space_char(v[a])
        invariant
            v@ == s@,
            n == v.len(),
            a <= n,
            trimmed_start(s@.skip(a as int)) == trimmed_start(s@),
        decreases n - a,
    {
        assert(s@.skip(a as int).skip(1) =~= s@.skip(a + 1));
        a += 1;
    }
    let ghost t = s@.skip(a as int);
    let mut b: usize = n;
    assert(t =~= s@.subrange(a as int, n as int));
    while b > a && is_space_char(v[b - 1])
        invariant
            v@ == s@,
            n == v.len(),
            a <= b <= n,
            trimmed_end(s@.subrange(a as int, b as int)) == trimmed_end(t),
        decreases b - a,
    {
        assert(s@.subrange(a as int, b as int).drop_last() =~= s@.subrange(a as int, b - 1));
        b -= 1;
    }
    s.substring_char(a, b).to_owned()
}

/// How many characters come before the first whitespace.
pub open spec fn word_len(s: Seq<char>) -> int
    decreases s.len(),
{
    if s.len() == 0 || is_space(s[0]) {
        0
    } else {
        1 + word_len(s.skip(1))
    }
}

/// The pieces of `s` between runs of whitespace; none of them is empty.
pub open spec fn words(s: Seq<char>) -> Seq<Seq<char>>
    decreases s.len(),
    via words_decreases
{
    if s.len() == 0 {
        seq![]
    } else if is_space(s[0]) {
        words(s.skip(1))
    } else {
        seq![s.take(word_len(s))] + words(s.skip(word_len(s)))
    }
}

#[via_fn]
proof fn words_decreases(s: Seq<char>) {
    lemma_word_len(s);
}

proof fn lemma_word_len(s: Seq<char>)
    ensures
        0 <= word_len(s) <= s.len(),
        forall|j: int| 0 <= j < word_len(s) ==> !is_space(s[j]),
        word_len(s) < s.len() ==> is_space(s[word_len(s)]),
    decreases s.len(),
{
    if s.len() == 0 || is_space(s[0]) {
    } else {
        let t = s.skip(1);
        lemma_word_len(t);
        assert forall|j: int| 0 <= j < word_len(s) implies !is_space(s[j]) by {
            if j > 0 {
                assert(t[j - 1] == s[j]);
            }
        }
        if word_len(s) < s.len() {
            assert(t[word_len(t)] == s[word_len(s)]);
        }
    }
}

proof fn lemma_word_len_unique(s: Seq<char>, i: int)
    requires
        0 <= i <= s.len(),
        forall|j: int| 0 <= j < i ==> !is_space(s[j]),
        i < s.len() ==> is_space(s[i]),
    ensures
        word_len(s) == i,
{
    lemma_word_len(s);
    let k = word_len(s);
    if k < i {
        assert(!is_space(s[k]));
    } else if i < k {
        assert(!is_space(s[i]));
    }
}

/// The pieces of `s` between runs of whitespace.
pub fn split_words(s: &str) -> (r: Vec<String>)
    ensures
        views(r@) == words(s@),
{
    let v = chars_of(s);
    let n: usize = v.len();
    let mut out: Vec<String> = Vec::new();
    let mut i: usize = 0;
    assert(s@.skip(0) =~= s@);
    assert(views(out@) + words(s@) =~= words(s@));
    while i < n
        invariant
            v@ == s@,
            n == v.len(),
            i <= n,
            views(out@) + words(s@.skip(i as int)) == words(s@),
        decreases n - i,
    {
        let ghost rest = s@.skip(i as int);
        assert(rest[0] == v@[i as int]);
        if is_space_char(v[i]) {
            assert(rest.skip(1) =~= s@.skip(i + 1));
            i += 1;
        } else {
            let mut j: usize = i + 1;
            while j < n && !is_space_char(v[j])
                invariant
                    v@ == s@,
                    n == v.len(),
                    i < j <= n,
                    forall|k: int| i <= k < j ==> !is_space(v@[k]),
                decreases n - j,
            {
                j += 1;
            }
            let word = s.substring_char(i, j).to_owned();
            let ghost before = views(out@);
            proof {
                broadcast use lemma_views_push;

                assert forall|k: int| 0 <= k < j - i implies !is_space(rest[k]) by {
                    assert(rest[k] == v@[i + k]);
                }
                if j < n {
                    assert(rest[j - i] == v@[j as int]);
                }
                lemma_word_len_unique(rest, j - i);
                assert(word@ =~= rest.take(j - i));
                assert(rest.skip(j - i) =~= s@.skip(j as int));
            }
            out.push(word);
            assert(views(out@) + words(s@.skip(j as int)) =~= before + words(rest));
            i = j;
        }
    }
    assert(s@.skip(n as int) =~= seq![]);
    assert(views(out@) + words(seq![]) =~= views(out@));
    out
}

/// A line without the carriage return at its end.
pub open spec fn without_cr(s: Seq<char>) -> Seq<char> {
    if s.len() > 0 && s.last() == '\r' {
        s.drop_last()
    } else {
        s
    }
}

/// The lines of `s`. A line ends in a line feed, with or without a carriage
/// return before it; the last line may lack the line feed.
pub open spec fn lines(s: Seq<char>) -> Seq<Seq<char>> {
    let ps = split(s, '\n');
    let ended = ps.drop_last().map_values(|p: Seq<char>| without_cr(p));
    if ps.last().len() == 0 {
        ended
    } else {
        ended.push(ps.last())
    }
}

/// The lines of `s`.
pub fn split_lines(s: &str) -> (r: Vec<String>)
    ensures
        views(r@) == lines(s@),
{
    let ps = split_on(s, '\n');
    proof {
        lemma_first_of(s@, '\n');
    }
    let n: usize = ps.len();
    assert(views(ps@).len() == n);
    let ghost pv = views(ps@);
    let ghost ended = pv.drop_last().map_values(|p: Seq<char>| without_cr(p));
    let mut out: Vec<String> = Vec::new();
    let mut i: usize = 0;
    while i + 1 < n
        invariant
            0 < n == ps.len(),
            i < n,
            pv == views(ps@),
            ended == pv.drop_last().map_values(|p: Seq<char>| without_cr(p)),
            views(out@) =~= ended.take(i as int),
        decreases n - i,
    {
        broadcast use lemma_views_push;

        let line = &ps[i];
        assert(pv[i as int] == line@);
        let m: usize = line.as_str().unicode_len();
        let kept = if m > 0 && line.as_str().get_char(m - 1) == '\r' {
            assert(line@.subrange(0, m - 1) =~= line@.drop_last());
            line.as_str().substring_char(0, m - 1).to_owned()
        } else {
            line.clone()
        };
        assert(kept@ =~= without_cr(line@));
        assert(ended[i as int] == without_cr(pv[i as int]));
        out.push(kept);
        i += 1;
    }
    assert(ended.take(i as int) =~= ended);
    assert(pv.last() == ps@[n - 1]@);
    if !ps[n - 1].as_str().is_empty() {
        broadcast use lemma_views_push;

        out.push(ps[n - 1].clone());
    }
    out
}

/// Words joined by a blank.
pub open spec fn spaced(ws: Seq<Seq<char>>) -> Seq<char>
    decreases ws.len(),
{
    if ws.len() == 0 {
        seq![]
    } else if ws.len() == 1 {
        ws[0]
    } else {
        spaced(ws.drop_last()) + " "@ + ws.last()
    }
}

/// Words joined by a blank.
pub fn join_words(ws: &Vec<String>) -> (r: String)
    ensures
        r@ == spaced(views(ws@)),
{
    let mut s = String::new();
    let mut i: usize = 0;
    let ghost wv = views(ws@);
    while i < ws.len()
        invariant
            i <= ws.len(),
            wv == views(ws@),
            s@ == spaced(wv.take(i as int)),
        decreases ws.len() - i,
    {
        let ghost t = wv.take(i + 1);
        assert(t.drop_last() =~= wv.take(i as int));
        assert(t.last() == ws@[i as int]@);
        if i > 0 {
            s.append(" ");
        }
        s.append(&ws[i]);
        assert(s@ =~= spaced(t));
        i += 1;
    }
    assert(wv.take(ws.len() as int) =~= wv);
    s
}

/// Owned copies of the given texts.
pub fn list_of(parts: &[&str]) -> (r: Vec<String>)
    ensures
        views(r@) == parts@.map_values(|p: &str| p@),
{
    let mut out: Vec<String> = Vec::new();
    let mut i: usize = 0;
    let ghost all = parts@.map_values(|p: &str| p@);
    while i < parts.len()
        invariant
            i <= parts@.len(),
            all == parts@.map_values(|p: &str| p@),
            views(out@) =~= all.take(i as int),
        decreases parts@.len() - i,
    {
        broadcast use lemma_views_push;

        assert(all[i as int] == parts@[i as int]@);
        out.push(parts[i].to_owned());
        i += 1;
    }
    assert(all.take(parts@.len() as int) =~= all);
    out
}

// ---------- quoting ----------

/// What `{:?}` writes for a text: the text in double quotes, with escapes.
pub uninterp spec fn quoted(s: Seq<char>) -> Seq<char>;

/// `<str as core::fmt::Debug>::fmt`: the text in double quotes, with escapes.
#[verifier::external_body]
pub(crate) fn quote(s: &str) -> (r: String)
    ensures
        r@ == quoted(s@),
{
    format!("{s:?}")
}

// ---------- numbers ----------

/// The character of a decimal digit.
pub open spec fn digit(d: int) -> char {
    ('0' as int + d) as char
}

/// The decimal digits of a number, without leading zeros.
pub open spec fn decimal(n: nat) -> Seq<char>
    decreases n,
{
    if n < 10 {
        seq![digit(n as int)]
    } else {
        decimal(n / 10).push(digit((n % 10) as int))
    }
}

/// The decimal digits of an integer, with a minus sign where it is negative.
pub open spec fn decimal_int(i: int) -> Seq<char> {
    if i < 0 {
        seq!['-'] + decimal((-i) as nat)
    } else {
        decimal(i as nat)
    }
}

pub fn decimal_text(n: u64) -> (r: String)
    ensures
        r@ == decimal(n as nat),
    decreases n,
{
    let mut s = if n < 10 {
        String::new()
    } else {
        decimal_text(n / 10)
    };
    let d: usize = (n % 10) as usize;
    proof {
        reveal_strlit("0123456789");
    }
    let one = "0123456789".substring_ascii(d, d + 1);
    assert(one@ =~= seq![digit(d as int)]);
    s.append(one);
    assert(s@ =~= decimal(n as nat));
    s
}

pub fn decimal_int_text(i: i64) -> (r: String)
    ensures
        r@ == decimal_int(i as int),
{
    if i >= 0 {
        decimal_text(i as u64)
    } else {
        let m: u64 = (-(i + 1)) as u64 + 1;
        let mut s = "-".to_owned();
        s.append(decimal_text(m).as_str());
        proof {
            reveal_strlit("-");
        }
        assert(s@ =~= decimal_int(i as int));
        s
    }
}

/// The character of a lower-case hexadecimal digit.
pub open spec fn hex_digit(d: int) -> char {
    if d < 10 {
        ('0' as int + d) as char
    } else {
        ('a' as int + (d - 10)) as char
    }
}

/// Two lower-case hexadecimal digits for each byte, the high one first.
pub open spec fn hex(b: Seq<u8>) -> Seq<char>
    decreases b.len(),
{
    if b.len() == 0 {
        seq![]
    } else {
        hex(b.drop_last()) + seq![
            hex_digit((b.last() / 16) as int),
            hex_digit((b.last() % 16) as int),
        ]
    }
}

/// All characters are lower-case hexadecimal digits.
pub open spec fn all_hex(s: Seq<char>) -> bool {
    forall|i: int| 0 <= i < s.len() ==> ('0' <= #[trigger] s[i] <= '9' || 'a' <= s[i] <= 'f')
}

/// Hexadecimal text has two digits for each byte and nothing else.
pub proof fn lemma_hex(b: Seq<u8>)
    ensures
        hex(b).len() == 2 * b.len(),
        all_hex(hex(b)),
    decreases b.len(),
{
    if b.len() > 0 {
        lemma_hex(b.drop_last());
    }
}

/// The bytes in lower-case hexadecimal.
pub fn hex_text(b: &[u8]) -> (r: String)
    ensures
        r@ == hex(b@),
{
    let mut s = String::new();
    let mut i: usize = 0;
    proof {
        reveal_strlit("0123456789abcdef");
    }
    while i < b.len()
        invariant
            i <= b@.len(),
            s@ == hex(b@.take(i as int)),
            "0123456789abcdef"@.len() == 16,
            "0123456789abcdef".is_ascii(),
            forall|d: int| 0 <= d < 16 ==> "0123456789abcdef"@[d] == hex_digit(d),
        decreases b@.len() - i,
    {
        let hi: usize = (b[i] / 16) as usize;
        let lo: usize = (b[i] % 16) as usize;
        s.append("0123456789abcdef".substring_ascii(hi, hi + 1));
        s.append("0123456789abcdef".substring_ascii(lo, lo + 1));
        assert(b@.take(i + 1).drop_last() =~= b@.take(i as int));
        assert(s@ =~= hex(b@.take(i + 1)));
        i += 1;
    }
    assert(b@.take(b@.len() as int) =~= b@);
    s
}

/// All characters are decimal digits.
pub open spec fn all_digits(s: Seq<char>) -> bool {
    forall|i: int| 0 <= i < s.len() ==> '0' <= #[trigger] s[i] <= '9'
}

/// The number that a row of decimal digits stands for.
pub open spec fn digits_value(s: Seq<char>) -> nat
    decreases s.len(),
{
    if s.len() == 0 {
        0
    } else {
        (digits_value(s.drop_last()) * 10 + (s.last() as int - '0' as int)) as nat
    }
}

/// The number written in `s`: an optional `+` and at least one digit.
pub open spec fn natural(s: Seq<char>) -> Option<nat> {
    let t = if s.len() > 0 && s[0] == '+' {
        s.skip(1)
    } else {
        s
    };
    if t.len() > 0 && all_digits(t) {
        Some(digits_value(t))
    } else {
        None
    }
}

/// The decimal digits of a number stand for that number.
pub proof fn lemma_decimal_value(n: nat)
    ensures
        decimal(n).len() > 0,
        all_digits(decimal(n)),
        digits_value(decimal(n)) == n,
        natural(decimal(n)) == Some(n),
    decreases n,
{
    let s = decimal(n);
    if n < 10 {
        assert(s.drop_last() =~= seq![]);
        assert(s.last() == digit(n as int));
        assert(digits_value(seq![]) == 0);
    } else {
        lemma_decimal_value(n / 10);
        assert(s.drop_last() =~= decimal(n / 10));
        assert(s.last() == digit((n % 10) as int));
    }
    assert('0' <= s[0] <= '9');
}

/// Reads an unsigned number: `None` where `s` is no number or too large.
pub fn parse_u64(s: &str) -> (r: Option<u64>)
    ensures
        match r {
            Some(n) => natural(s@) == Some(n as nat),
            None => natural(s@) matches Some(n) ==> n > u64::MAX,
        },
{
    let v = chars_of(s);
    let n: usize = v.len();
    let start: usize = if n > 0 && v[0] == '+' {
        1
    } else {
        0
    };
    let ghost t = s@.skip(start as int);
    assert(s@.skip(0) =~= s@);
    assert(natural(s@) == if t.len() > 0 && all_digits(t) {
        Some(digits_value(t))
    } else {
        None
    });
    if start == n {
        return None;
    }
    let mut i: usize = start;
    let mut acc: u64 = 0;
    let mut fits: bool = true;
    while i < n
        invariant
            v@ == s@,
            n == v.len(),
            start <= i <= n,
            t == s@.skip(start as int),
            !all_digits(t) ==> natural(s@) is None,
            all_digits(t.take(i - start)),
            fits ==> acc as nat == digits_value(t.take(i - start)),
            !fits ==> digits_value(t.take(i - start)) > u64::MAX,
        decreases n - i,
    {
        let c: char = v[i];
        let ghost k = i - start;
        assert(t[k] == c);
        if !('0' <= c && c <= '9') {
            assert(!all_digits(t));
            return None;
        }
        proof {
            assert(t.take(k + 1).drop_last() =~= t.take(k));
            assert(t.take(k + 1).last() == c);
            assert forall|j: int| 0 <= j < k + 1 implies '0' <= #[trigger] t.take(k + 1)[j]
                <= '9' by {
                if j < k {
                    assert(t.take(k)[j] == t.take(k + 1)[j]);
                }
            }
        }
        let d: u64 = c as u64 - '0' as u64;
        if fits {
            if acc > (u64::MAX - d) / 10 {
                fits = false;
            } else {
                acc = acc * 10 + d;
            }
        }
        i += 1;
    }
    assert(t.take(n - start) =~= t);
    if fits {
        Some(acc)
    } else {
        None
    }
}

// ---------- laws ----------

/// Trimming takes whitespace off both ends and nothing else: what is left
/// neither begins nor ends with some. The result is what was taken off.
pub proof fn law_trim_takes_only_whitespace(s: Seq<char>) -> (off: (Seq<char>, Seq<char>))
    ensures
        s == off.0 + trimmed(s) + off.1,
        all_space(off.0),
        all_space(off.1),
        trimmed(s).len() > 0 ==> !is_space(trimmed(s)[0]) && !is_space(trimmed(s).last()),
{
    let l = space_before(s);
    let t = trimmed_start(s);
    let r = space_after(t);
    assert(s =~= l + trimmed(s) + r);
    if trimmed(s).len() > 0 {
        assert(trimmed(s)[0] == t[0]);
    }
    (l, r)
}

proof fn space_before(s: Seq<char>) -> (l: Seq<char>)
    ensures
        s == l + trimmed_start(s),
        all_space(l),
        trimmed_start(s).len() > 0 ==> !is_space(trimmed_start(s)[0]),
    decreases s.len(),
{
    if s.len() > 0 && is_space(s[0]) {
        let more = space_before(s.skip(1));
        let l = seq![s[0]] + more;
        assert(s =~= seq![s[0]] + s.skip(1));
        assert(s =~= l + trimmed_start(s));
        l
    } else {
        assert(s =~= Seq::<char>::empty() + s);
        Seq::empty()
    }
}

proof fn space_after(s: Seq<char>) -> (r: Seq<char>)
    ensures
        s == trimmed_end(s) + r,
        all_space(r),
        trimmed_end(s).len() > 0 ==> !is_space(trimmed_end(s).last()),
    decreases s.len(),
{
    if s.len() > 0 && is_space(s.last()) {
        let more = space_after(s.drop_last());
        let r = more.push(s.last());
        assert(s =~= s.drop_last().push(s.last()));
        assert(s =~= trimmed_end(s) + r);
        r
    } else {
        assert(s =~= s + Seq::<char>::empty());
        Seq::empty()
    }
}

/// A line feed ends a line, a carriage return before it goes with it, and a
/// last line needs no line feed.
pub proof fn law_line_feeds_end_lines(a: Seq<char>, rest: Seq<char>)
    requires
        forall|i: int| 0 <= i < a.len() ==> a[i] != '\n',
    ensures
        lines(a.push('\n') + rest) == seq![
            if a.len() > 0 && a.last() == '\r' {
                a.drop_last()
            } else {
                a
            },
        ] + lines(rest),
        a.len() > 0 ==> lines(a) == seq![a],
        lines(seq![]) == Seq::<Seq<char>>::empty(),
{
    lemma_split_first(a, rest, '\n');
    lemma_split_none(a, '\n');
    lemma_split_none(seq![], '\n');
    let ps = split(a.push('\n') + rest, '\n');
    let more = split(rest, '\n');
    crate::path::lemma_split_nonempty(rest, '\n');
    assert(ps.last() == more.last());
    assert(ps.drop_last() =~= seq![a] + more.drop_last());
    assert(lines(a.push('\n') + rest) =~= seq![without_cr(a)] + lines(rest));
    assert(seq![a].drop_last() =~= seq![]);
    assert(lines(a) =~= if a.len() > 0 {
        seq![a]
    } else {
        seq![]
    });
    let none = Seq::<char>::empty();
    assert(split(none, '\n').drop_last() =~= seq![]);
    assert(lines(none) =~= seq![]);
}

/// Words are what stands between whitespace.
pub proof fn law_whitespace_parts_words(w: Seq<char>, c: char, rest: Seq<char>)
    requires
        w.len() > 0,
        forall|i: int| 0 <= i < w.len() ==> !is_space(w[i]),
        is_space(c),
    ensures
        words(w) == seq![w],
        words(w.push(c) + rest) == seq![w] + words(rest),
        words(seq![c] + rest) == words(rest),
        words(seq![]) == Seq::<Seq<char>>::empty(),
{
    lemma_word_len_unique(w, w.len() as int);
    assert(w.take(w.len() as int) =~= w);
    assert(w.skip(w.len() as int) =~= seq![]);
    assert(words(seq![]) == Seq::<Seq<char>>::empty());
    assert(words(w) =~= seq![w]);
    let s = w.push(c) + rest;
    assert forall|j: int| 0 <= j < w.len() implies !is_space(s[j]) by {
        assert(s[j] == w[j]);
    }
    assert(s[w.len() as int] == c);
    lemma_word_len_unique(s, w.len() as int);
    assert(s[0] == w[0]);
    assert(s.take(w.len() as int) =~= w);
    let tail = s.skip(w.len() as int);
    assert(tail =~= seq![c] + rest);
    assert((seq![c] + rest).skip(1) =~= rest);
    assert((seq![c] + rest)[0] == c);
    assert(words(tail) == words(rest));
    assert(words(s) == seq![w] + words(tail));
}

/// Texts are ordered by the first character in which they differ; a text comes
/// before those that continue it.
pub proof fn law_text_order_by_first_difference(
    p: Seq<char>,
    a: char,
    x: Seq<char>,
    b: char,
    y: Seq<char>,
)
    ensures
        a < b ==> text_less(p + (seq![a] + x), p + (seq![b] + y)),
        text_less(p, p + (seq![a] + x)),
        !text_less(p + (seq![a] + x), p),
    decreases p.len(),
{
    let s = p + (seq![a] + x);
    let t = p + (seq![b] + y);
    if p.len() > 0 {
        law_text_order_by_first_difference(p.skip(1), a, x, b, y);
        assert(s.skip(1) =~= p.skip(1) + (seq![a] + x));
        assert(t.skip(1) =~= p.skip(1) + (seq![b] + y));
        assert(s[0] == p[0] && t[0] == p[0]);
    } else {
        assert(s[0] == a && t[0] == b);
    }
}

/// Numbers in words have no leading zeros, and different numbers differ.
pub proof fn law_numbers_in_words(m: nat, n: nat)
    ensures
        n > 0 ==> decimal(n)[0] != '0',
        decimal(m) == decimal(n) ==> m == n,
    decreases n,
{
    lemma_decimal_value(m);
    lemma_decimal_value(n);
    if n >= 10 {
        law_numbers_in_words(m, n / 10);
        lemma_decimal_value(n / 10);
        assert(decimal(n)[0] == decimal(n / 10)[0]);
    }
}

/// Each byte takes two digits, the high one first.
pub proof fn law_hex_is_two_digits_each(b: Seq<u8>, i: int)
    requires
        0 <= i < b.len(),
    ensures
        hex(b).len() == 2 * b.len(),
        hex(b)[2 * i] == hex_digit((b[i] / 16) as int),
        hex(b)[2 * i + 1] == hex_digit((b[i] % 16) as int),
    decreases b.len(),
{
    lemma_hex(b);
    lemma_hex(b.drop_last());
    if i < b.len() - 1 {
        law_hex_is_two_digits_each(b.drop_last(), i);
        assert(b.drop_last()[i] == b[i]);
    }
}

/// Words that are put together with blanks come apart again.
pub proof fn law_spaced_words_come_apart(ws: Seq<Seq<char>>)
    requires
        forall|i: int|
            0 <= i < ws.len() ==> (#[trigger] ws[i]).len() > 0 && forall|j: int|
                0 <= j < ws[i].len() ==> !is_space(#[trigger] ws[i][j]),
    ensures
        words(spaced(ws)) == ws,
    decreases ws.len(),
{
    reveal_strlit(" ");
    assert(" "@ =~= seq![' ']);
    if ws.len() == 0 {
        assert(words(seq![]) =~= ws);
    } else if ws.len() == 1 {
        law_whitespace_parts_words(ws[0], ' ', seq![]);
        assert(seq![ws[0]] =~= ws);
    } else {
        lemma_spaced_first(ws);
        let rest = ws.skip(1);
        assert forall|i: int| 0 <= i < rest.len() implies (#[trigger] rest[i]).len() > 0 && forall|
            j: int,
        |
            0 <= j < rest[i].len() ==> !is_space(#[trigger] rest[i][j]) by {
            assert(rest[i] == ws[i + 1]);
        }
        law_spaced_words_come_apart(rest);
        assert(ws[0].len() > 0);
        law_whitespace_parts_words(ws[0], ' ', spaced(rest));
        assert(seq![ws[0]] + rest =~= ws);
    }
}

proof fn lemma_spaced_first(ws: Seq<Seq<char>>)
    requires
        ws.len() > 1,
    ensures
        spaced(ws) == ws[0].push(' ') + spaced(ws.skip(1)),
    decreases ws.len(),
{
    reveal_strlit(" ");
    assert(" "@ =~= seq![' ']);
    let rest = ws.skip(1);
    if ws.len() == 2 {
        assert(spaced(ws.drop_last()) == ws[0]);
        assert(ws.last() == ws[1]);
        assert(spaced(ws) =~= ws[0].push(' ') + ws[1]);
        assert(rest =~= seq![ws[1]]);
    } else {
        let front = ws.drop_last();
        lemma_spaced_first(front);
        assert(front.skip(1) =~= rest.drop_last());
        assert(rest.last() == ws.last());
        assert(spaced(ws) =~= ws[0].push(' ') + spaced(rest));
    }
}

/// A text begins and ends with another exactly if the rest comes behind or
/// before it.
pub proof fn law_begins_and_ends(s: Seq<char>, p: Seq<char>, rest: Seq<char>)
    ensures
        begins(p + rest, p),
        ends(rest + p, p),
        begins(s, p) ==> s == p + s.skip(p.len() as int),
        ends(s, p) ==> s == s.take(s.len() - p.len()) + p,
{
    assert((p + rest).take(p.len() as int) =~= p);
    assert((rest + p).skip(rest.len() as int) =~= p);
    if begins(s, p) {
        assert(s =~= s.take(p.len() as int) + s.skip(p.len() as int));
    }
    if ends(s, p) {
        assert(s =~= s.take(s.len() - p.len()) + s.skip(s.len() - p.len()));
    }
}

/// A number is an optional plus sign and digits, each worth ten times the next.
pub proof fn law_numbers_are_read(s: Seq<char>, c: char)
    ensures
        natural(seq![]) is None,
        '0' <= c <= '9' ==> natural(seq![c]) == Some((c as int - '0' as int) as nat),
        '0' <= c <= '9' && s.len() > 0 && all_digits(s) ==> natural(s.push(c)) == Some(
            (10 * digits_value(s) + (c as int - '0' as int)) as nat,
        ),
        s.len() > 0 && all_digits(s) ==> natural(s) == Some(digits_value(s)) && natural(
            seq!['+'] + s,
        ) == Some(digits_value(s)),
        s.len() > 0 && s[0] != '+' && !all_digits(s) ==> natural(s) is None,
{
    let one = seq![c];
    assert(one.drop_last() =~= seq![]);
    assert(digits_value(seq![]) == 0);
    assert((seq!['+'] + s).skip(1) =~= s);
    let t = s.push(c);
    assert(t.drop_last() =~= s);
    if s.len() > 0 && all_digits(s) {
        assert(s[0] != '+');
        assert(t[0] == s[0]);
        if '0' <= c <= '9' {
            assert(all_digits(t)) by {
                assert forall|i: int| 0 <= i < t.len() implies '0' <= #[trigger] t[i] <= '9' by {
                    if i < s.len() {
                        assert(t[i] == s[i]);
                    }
                }
            }
        }
    }
}

/// Blanks, tabs and line ends are whitespace; visible ASCII characters are not.
pub proof fn law_whitespace(c: char)
    ensures
        is_space(' '),
        is_space('\t'),
        is_space('\n'),
        is_space('\r'),
        '!' <= c <= '~' ==> !is_space(c),
        is_space(c) ==> c <= ' ' || c >= '\u{85}',
{
}

/// The digits of a byte in words.
pub proof fn law_hex_digits(d: int)
    requires
        0 <= d < 16,
    ensures
        hex_digit(d) == "0123456789abcdef"@[d],
{
    reveal_strlit("0123456789abcdef");
}

} // verus!
