//! JSON values: what they hold, how they are built, read and written.

use vstd::prelude::*;
use vstd::string::*;
use vstd::utf8::*;

use crate::text::opt_str_view;

verus! {

/// `serde_json::Value`.
#[verifier::external_type_specification]
#[verifier::external_body]
pub struct ExValue(serde_json::Value);

/// What a JSON value holds. The members of an object have distinct names and
/// keep their order.
pub enum Tree {
    Null,
    Bool(bool),
    Int(int),
    /// A number that is no integer, as it is written.
    Real(Seq<char>),
    Text(Seq<char>),
    List(Seq<Tree>),
    Object(Seq<(Seq<char>, Tree)>),
}

/// What a value holds.
pub uninterp spec fn tree_of(v: serde_json::Value) -> Tree;

/// What the values of a list hold.
pub open spec fn trees(v: Seq<serde_json::Value>) -> Seq<Tree> {
    v.map_values(|x: serde_json::Value| tree_of(x))
}

/// What the members of an object hold.
pub open spec fn members(v: Seq<(String, serde_json::Value)>) -> Seq<(Seq<char>, Tree)> {
    v.map_values(|m: (String, serde_json::Value)| (m.0@, tree_of(m.1)))
}

/// No two members have the same name.
pub open spec fn distinct(ms: Seq<(Seq<char>, Tree)>) -> bool {
    forall|i: int, j: int| 0 <= i < j < ms.len() ==> (#[trigger] ms[i]).0 != (#[trigger] ms[j]).0
}

/// The member with this name.
pub open spec fn member(ms: Seq<(Seq<char>, Tree)>, name: Seq<char>) -> Option<Tree>
    decreases ms.len(),
{
    if ms.len() == 0 {
        None
    } else if ms[0].0 == name {
        Some(ms[0].1)
    } else {
        member(ms.skip(1), name)
    }
}

// ---------- building ----------

/// `<serde_json::Value as Default>::default`: null.
#[verifier::external_body]
pub(crate) fn null_value() -> (r: serde_json::Value)
    ensures
        tree_of(r) == Tree::Null,
{
    serde_json::Value::default()
}

/// `<serde_json::Value as From<bool>>::from`.
#[verifier::external_body]
pub(crate) fn bool_value(b: bool) -> (r: serde_json::Value)
    ensures
        tree_of(r) == Tree::Bool(b),
{
    serde_json::Value::from(b)
}

/// `<serde_json::Value as From<i64>>::from`.
#[verifier::external_body]
pub(crate) fn int_value(n: i64) -> (r: serde_json::Value)
    ensures
        tree_of(r) == Tree::Int(n as int),
{
    serde_json::Value::from(n)
}

/// `<serde_json::Value as From<u64>>::from`.
#[verifier::external_body]
pub(crate) fn uint_value(n: u64) -> (r: serde_json::Value)
    ensures
        tree_of(r) == Tree::Int(n as int),
{
    serde_json::Value::from(n)
}

/// `<serde_json::Value as From<&str>>::from`.
#[verifier::external_body]
pub(crate) fn text_value(s: &str) -> (r: serde_json::Value)
    ensures
        tree_of(r) == Tree::Text(s@),
{
    serde_json::Value::from(s)
}

/// `<serde_json::Value as From<Vec<serde_json::Value>>>::from`.
#[verifier::external_body]
pub(crate) fn list_value(items: Vec<serde_json::Value>) -> (r: serde_json::Value)
    ensures
        tree_of(r) == Tree::List(trees(items@)),
{
    serde_json::Value::from(items)
}

/// `<serde_json::Value as FromIterator<(String, serde_json::Value)>>::from_iter`:
/// an object with these members, in this order.
#[verifier::external_body]
pub(crate) fn object_value(ms: Vec<(String, serde_json::Value)>) -> (r: serde_json::Value)
    requires
        distinct(members(ms@)),
    ensures
        tree_of(r) == Tree::Object(members(ms@)),
{
    ms.into_iter().collect()
}

/// A named member, left out where there is none.
pub struct Part {
    pub name: Seq<char>,
    pub value: Option<Tree>,
}

/// The members of the parts, in order.
pub open spec fn flatten(ps: Seq<Part>) -> Seq<(Seq<char>, Tree)>
    decreases ps.len(),
{
    if ps.len() == 0 {
        seq![]
    } else {
        let rest = flatten(ps.drop_last());
        match ps.last().value {
            Some(t) => rest.push((ps.last().name, t)),
            None => rest,
        }
    }
}

/// No two parts have the same name.
pub open spec fn distinct_parts(ps: Seq<Part>) -> bool {
    forall|i: int, j: int|
        0 <= i < j < ps.len() ==> (#[trigger] ps[i]).name != (#[trigger] ps[j]).name
}

/// No member has this name.
pub open spec fn fresh(ms: Seq<(Seq<char>, Tree)>, name: Seq<char>) -> bool {
    forall|i: int| 0 <= i < ms.len() ==> (#[trigger] ms[i]).0 != name
}

/// Members that come from parts with distinct names have distinct names, and
/// each part is found under its name.
pub proof fn lemma_flatten(ps: Seq<Part>)
    requires
        distinct_parts(ps),
    ensures
        distinct(flatten(ps)),
        forall|i: int| 0 <= i < ps.len() ==> member(flatten(ps), (#[trigger] ps[i]).name) == ps[i].value,
        forall|name: Seq<char>|
            (forall|i: int| 0 <= i < ps.len() ==> (#[trigger] ps[i]).name != name)
                ==> #[trigger] fresh(flatten(ps), name),
    decreases ps.len(),
{
    if ps.len() > 0 {
        let front = ps.drop_last();
        let rest = flatten(front);
        let all = flatten(ps);
        let last = ps.last();
        assert(distinct_parts(front)) by {
            assert forall|i: int, j: int| 0 <= i < j < front.len() implies (#[trigger] front[i]).name
                != (#[trigger] front[j]).name by {
                assert(front[i] == ps[i] && front[j] == ps[j]);
            }
        }
        lemma_flatten(front);
        assert(fresh(rest, last.name)) by {
            assert forall|i: int| 0 <= i < front.len() implies (#[trigger] front[i]).name
                != last.name by {
                assert(front[i] == ps[i]);
                assert(ps[ps.len() - 1] == last);
            }
        }
        assert forall|i: int| 0 <= i < ps.len() implies member(all, (#[trigger] ps[i]).name)
            == ps[i].value by {
            if i < ps.len() - 1 {
                assert(front[i] == ps[i]);
                assert(ps[ps.len() - 1] == last);
                assert(ps[i].name != last.name);
                if let Some(t) = last.value {
                    lemma_member_push(rest, (last.name, t), ps[i].name);
                }
            } else {
                lemma_member_fresh(rest, last.name);
                if let Some(t) = last.value {
                    lemma_member_push(rest, (last.name, t), last.name);
                }
            }
        }
        assert forall|name: Seq<char>|
            (forall|i: int| 0 <= i < ps.len() ==> (#[trigger] ps[i]).name != name) implies
            #[trigger] fresh(all, name) by {
            assert forall|i: int| 0 <= i < front.len() implies (#[trigger] front[i]).name
                != name by {
                assert(front[i] == ps[i]);
            }
            assert(fresh(rest, name));
            assert(ps[ps.len() - 1].name != name);
        }
    }
}

proof fn lemma_member_fresh(ms: Seq<(Seq<char>, Tree)>, name: Seq<char>)
    requires
        fresh(ms, name),
    ensures
        member(ms, name) is None,
    decreases ms.len(),
{
    if ms.len() > 0 {
        assert(ms[0].0 != name);
        assert forall|i: int| 0 <= i < ms.skip(1).len() implies (#[trigger] ms.skip(1)[i]).0
            != name by {
            assert(ms.skip(1)[i] == ms[i + 1]);
        }
        lemma_member_fresh(ms.skip(1), name);
    }
}

proof fn lemma_member_push(ms: Seq<(Seq<char>, Tree)>, m: (Seq<char>, Tree), name: Seq<char>)
    ensures
        member(ms.push(m), name) == match member(ms, name) {
            Some(t) => Some(t),
            None => if m.0 == name {
                Some(m.1)
            } else {
                None
            },
        },
    decreases ms.len(),
{
    let all = ms.push(m);
    if ms.len() == 0 {
        assert(all.skip(1) =~= seq![]);
        assert(all[0] == m);
        assert(member(seq![], name) is None);
    } else {
        assert(all[0] == ms[0]);
        assert(all.skip(1) =~= ms.skip(1).push(m));
        lemma_member_push(ms.skip(1), m, name);
    }
}

/// Appends a member, where there is one.
pub(crate) fn push_part(
    ms: &mut Vec<(String, serde_json::Value)>,
    name: &str,
    value: Option<serde_json::Value>,
)
    ensures
        members(final(ms)@) == match value {
            Some(v) => members(old(ms)@).push((name@, tree_of(v))),
            None => members(old(ms)@),
        },
{
    let ghost before = ms@;
    if let Some(v) = value {
        ms.push((name.to_owned(), v));
        assert(members(ms@) =~= members(before).push((name@, tree_of(v))));
    }
}

/// What an optional value holds.
pub open spec fn opt_tree(v: Option<serde_json::Value>) -> Option<Tree> {
    match v {
        Some(x) => Some(tree_of(x)),
        None => None,
    }
}

// ---------- reading ----------

/// `serde_json::Value::get` with the name of a member.
#[verifier::external_body]
pub(crate) fn get_member<'a>(v: &'a serde_json::Value, name: &str) -> (r: Option<
    &'a serde_json::Value,
>)
    ensures
        match tree_of(*v) {
            Tree::Object(ms) => match member(ms, name@) {
                Some(t) => r matches Some(x) && tree_of(*x) == t,
                None => r is None,
            },
            _ => r is None,
        },
{
    v.get(name)
}

/// `serde_json::Value::is_object`.
#[verifier::external_body]
pub(crate) fn is_object(v: &serde_json::Value) -> (r: bool)
    ensures
        r == (tree_of(*v) is Object),
{
    v.is_object()
}

/// `serde_json::Value::as_str`.
#[verifier::external_body]
pub(crate) fn as_text<'a>(v: &'a serde_json::Value) -> (r: Option<&'a str>)
    ensures
        opt_str_view(r) == match tree_of(*v) {
            Tree::Text(s) => Some(s),
            _ => None,
        },
{
    v.as_str()
}

/// `serde_json::Value::as_bool`.
#[verifier::external_body]
pub(crate) fn as_bool(v: &serde_json::Value) -> (r: Option<bool>)
    ensures
        r == match tree_of(*v) {
            Tree::Bool(b) => Some(b),
            _ => None,
        },
{
    v.as_bool()
}

/// `serde_json::Value::as_i64`.
#[verifier::external_body]
pub(crate) fn as_int(v: &serde_json::Value) -> (r: Option<i64>)
    ensures
        r == match tree_of(*v) {
            Tree::Int(n) => if i64::MIN <= n <= i64::MAX {
                Some(n as i64)
            } else {
                None
            },
            _ => None,
        },
{
    v.as_i64()
}

/// `serde_json::Value::as_array`.
#[verifier::external_body]
pub(crate) fn as_list<'a>(v: &'a serde_json::Value) -> (r: Option<&'a Vec<serde_json::Value>>)
    ensures
        match tree_of(*v) {
            Tree::List(ts) => r matches Some(items) && trees(items@) == ts,
            _ => r is None,
        },
{
    v.as_array()
}

/// The value stands for a record with `n` fields: an object, or a list of the
/// first fields in order.
pub open spec fn is_record(t: Tree, n: nat) -> bool {
    match t {
        Tree::Object(_) => true,
        Tree::List(ts) => ts.len() <= n,
        _ => false,
    }
}

/// The field of a record: the member with its name in an object, the item at
/// its position in a list.
pub open spec fn field(t: Tree, name: Seq<char>, k: int) -> Option<Tree> {
    match t {
        Tree::Object(ms) => member(ms, name),
        Tree::List(ts) => if 0 <= k < ts.len() {
            Some(ts[k])
        } else {
            None
        },
        _ => None,
    }
}

pub(crate) fn stands_for_record(v: &serde_json::Value, n: usize) -> (r: bool)
    ensures
        r == is_record(tree_of(*v), n as nat),
{
    match as_list(v) {
        Some(items) => {
            assert(trees(items@).len() == items.len());
            items.len() <= n
        },
        None => is_object(v),
    }
}

pub(crate) fn get_field<'a>(v: &'a serde_json::Value, name: &str, k: usize) -> (r: Option<
    &'a serde_json::Value,
>)
    ensures
        match field(tree_of(*v), name@, k as int) {
            Some(t) => r matches Some(x) && tree_of(*x) == t,
            None => r is None,
        },
{
    match as_list(v) {
        Some(items) => {
            assert(trees(items@).len() == items.len());
            if k < items.len() {
                assert(trees(items@)[k as int] == tree_of(items@[k as int]));
                Some(&items[k])
            } else {
                None
            }
        },
        None => get_member(v, name),
    }
}

// ---------- writing and parsing ----------

/// What `serde_json::from_slice` reads; none where it reports an error.
pub uninterp spec fn json_parsed(bytes: Seq<u8>) -> Option<Tree>;

/// What `serde_json::to_string` writes.
pub uninterp spec fn json_text(t: Tree) -> Seq<char>;

/// What `serde_json::to_string_pretty` writes.
pub uninterp spec fn json_pretty_text(t: Tree) -> Seq<char>;

/// What `toon::encode` writes without options.
pub uninterp spec fn toon_text(t: Tree) -> Seq<char>;

/// The value is at most `n` levels deep and its numbers are integers of at
/// most 64 bits.
pub open spec fn plain(t: Tree, n: nat) -> bool
    decreases n,
{
    match t {
        Tree::Null => true,
        Tree::Bool(_) => true,
        Tree::Int(i) => i64::MIN <= i <= u64::MAX,
        Tree::Real(_) => false,
        Tree::Text(_) => true,
        Tree::List(ts) => n > 0 && forall|i: int|
            0 <= i < ts.len() ==> plain(#[trigger] ts[i], (n - 1) as nat),
        Tree::Object(ms) => n > 0 && forall|i: int|
            0 <= i < ms.len() ==> plain((#[trigger] ms[i]).1, (n - 1) as nat),
    }
}

/// What is plain at some depth is plain at any greater one.
pub proof fn lemma_plain_grows(t: Tree, m: nat, n: nat)
    requires
        plain(t, m),
        m <= n,
    ensures
        plain(t, n),
    decreases m,
{
    match t {
        Tree::List(ts) => {
            assert forall|i: int| 0 <= i < ts.len() implies plain(
                #[trigger] ts[i],
                (n - 1) as nat,
            ) by {
                lemma_plain_grows(ts[i], (m - 1) as nat, (n - 1) as nat);
            }
        },
        Tree::Object(ms) => {
            assert forall|i: int| 0 <= i < ms.len() implies plain(
                (#[trigger] ms[i]).1,
                (n - 1) as nat,
            ) by {
                lemma_plain_grows(ms[i].1, (m - 1) as nat, (n - 1) as nat);
            }
        },
        _ => {},
    }
}

/// A line feed behind a text is one byte behind its bytes.
pub proof fn lemma_line_feed(s: Seq<char>)
    ensures
        encode_utf8(s + "\n"@) == encode_utf8(s).push(10),
    decreases s.len(),
{
    reveal_strlit("\n");
    let t = s + "\n"@;
    if s.len() == 0 {
        assert(t =~= seq!['\n']);
        assert(t.drop_first() =~= seq![]);
        reveal_with_fuel(encode_utf8, 2);
        assert((10u32 & 0x7F) as u8 == 10) by (bit_vector);
        assert(encode_utf8(t) =~= seq![10u8]);
    } else {
        assert(t.drop_first() =~= s.drop_first() + "\n"@);
        assert(t[0] == s[0]);
        lemma_line_feed(s.drop_first());
        assert(encode_utf8(t) =~= encode_utf8(s).push(10));
    }
}

/// `serde_json::from_slice`. An error comes with its text.
#[verifier::external_body]
pub(crate) fn parse_json(bytes: &[u8]) -> (r: Result<serde_json::Value, String>)
    ensures
        match json_parsed(bytes@) {
            Some(t) => r matches Ok(v) && tree_of(v) == t,
            None => r is Err,
        },
{
    serde_json::from_slice(bytes).map_err(|e| e.to_string())
}

/// `serde_json::to_string`. What it writes is read back by `from_slice`, with
/// or without a line feed after it, as long as it is plain and not nested
/// deeper than a hundred levels.
#[verifier::external_body]
pub(crate) fn print_json(v: &serde_json::Value) -> (r: String)
    ensures
        r@ == json_text(tree_of(*v)),
        plain(tree_of(*v), 100) ==> json_parsed(encode_utf8(r@)) == Some(tree_of(*v))
            && json_parsed(encode_utf8(r@).push(10)) == Some(tree_of(*v)),
{
    serde_json::to_string(v).unwrap_or_else(|_| "null".into())
}

/// `serde_json::to_string_pretty`. What it writes is read back by
/// `from_slice`, with or without a line feed after it, as long as it is plain
/// and not nested deeper than a hundred levels.
#[verifier::external_body]
pub(crate) fn print_json_pretty(v: &serde_json::Value) -> (r: String)
    ensures
        r@ == json_pretty_text(tree_of(*v)),
        plain(tree_of(*v), 100) ==> json_parsed(encode_utf8(r@)) == Some(tree_of(*v))
            && json_parsed(encode_utf8(r@).push(10)) == Some(tree_of(*v)),
{
    serde_json::to_string_pretty(v).unwrap_or_else(|_| "null".into())
}

/// `toon::encode` without options.
#[verifier::external_body]
pub(crate) fn print_toon(v: serde_json::Value) -> (r: String)
    ensures
        r@ == toon_text(tree_of(v)),
{
    toon::encode(v, None)
}

/// The member of an object with a name is the first that has it; an object
/// without it has none.
pub proof fn law_first_member_counts(ms: Seq<(Seq<char>, Tree)>, name: Seq<char>, i: int)
    ensures
        fresh(ms, name) <==> member(ms, name) is None,
        0 <= i < ms.len() && ms[i].0 == name && fresh(ms.take(i), name) ==> member(ms, name)
            == Some(ms[i].1),
    decreases ms.len(),
{
    if ms.len() > 0 {
        let t = ms.skip(1);
        law_first_member_counts(t, name, i - 1);
        assert(forall|j: int| 0 <= j < t.len() ==> #[trigger] t[j] == ms[j + 1]);
        if ms[0].0 != name {
            if fresh(t, name) {
                assert forall|j: int| 0 <= j < ms.len() implies (#[trigger] ms[j]).0 != name by {
                    if j > 0 {
                        assert(t[j - 1] == ms[j]);
                    }
                }
            }
            if fresh(ms, name) {
                assert forall|j: int| 0 <= j < t.len() implies (#[trigger] t[j]).0 != name by {
                    assert(ms[j + 1].0 != name);
                }
            }
            if 0 < i < ms.len() && ms[i].0 == name && fresh(ms.take(i), name) {
                assert(t[i - 1] == ms[i]);
                let u = t.take(i - 1);
                assert forall|j: int| 0 <= j < u.len() implies (#[trigger] u[j]).0 != name by {
                    assert(ms.take(i)[j + 1] == u[j]);
                }
            }
        } else if 0 < i < ms.len() && fresh(ms.take(i), name) {
            assert(ms.take(i)[0] == ms[0]);
        }
    }
}

/// A record is an object, or a list of no more than its fields; a field is found
/// by its name in an object and by its place in a list.
pub proof fn law_records_by_name_or_place(
    ms: Seq<(Seq<char>, Tree)>,
    ts: Seq<Tree>,
    name: Seq<char>,
    n: nat,
    k: int,
)
    ensures
        is_record(Tree::Object(ms), n),
        is_record(Tree::List(ts), n) <==> ts.len() <= n,
        !is_record(Tree::Null, n),
        !is_record(Tree::Text(name), n),
        !is_record(Tree::Int(k), n),
        !is_record(Tree::Bool(true), n),
        !is_record(Tree::Bool(false), n),
        field(Tree::Object(ms), name, k) == member(ms, name),
        0 <= k < ts.len() ==> field(Tree::List(ts), name, k) == Some(ts[k]),
        k < 0 || k >= ts.len() ==> field(Tree::List(ts), name, k) is None,
{
}

} // verus!
