//! The state file: the state of a pool as JSON text.
//!
//! Keys with their zero value are left out. On reading, absent keys stand for
//! zero values and unknown keys are ignored; of a key that is repeated the last
//! one counts. A list in place of an object holds the fields in order. What was
//! written is read back.

use vstd::prelude::*;
use vstd::string::*;
use vstd::utf8::*;

use crate::env::{EnvErrorKind, FileView, TreehouseEnv};
use crate::json::{
    as_bool, as_int, as_list, as_text, bool_value, distinct_parts, field, flatten, get_field,
    int_value, is_record, json_parsed, json_pretty_text, lemma_flatten, list_value, member, members,
    object_value, opt_tree, parse_json, plain, print_json_pretty, push_part, stands_for_record,
    text_value, tree_of, trees, Part, Tree,
};
use crate::path::join_spec;
use crate::state::{
    entry_of, entry_views, lemma_entry_views_push, normal_entry, slots_recovered, wire_of,
    EntryView, Slot, State, StateError, StateFile, WireEntry, WireView, WorktreeEntry,
};
use crate::text::opt_view;
use crate::time::Timestamp;

verus! {

/// The mode that a new state file gets.
pub const STATE_FILE_MODE: u32 = 0o644;

// ---------- writing ----------

/// An optional text as a JSON value.
pub open spec fn text_tree(s: Option<Seq<char>>) -> Option<Tree> {
    match s {
        Some(t) => Some(Tree::Text(t)),
        None => None,
    }
}

/// An optional truth value as a JSON value.
pub open spec fn bool_tree(b: Option<bool>) -> Option<Tree> {
    match b {
        Some(x) => Some(Tree::Bool(x)),
        None => None,
    }
}

/// An optional number as a JSON value.
pub open spec fn int_tree(n: Option<int>) -> Option<Tree> {
    match n {
        Some(x) => Some(Tree::Int(x)),
        None => None,
    }
}

/// An optional number without regard to its type.
pub open spec fn widen32(n: Option<i32>) -> Option<int> {
    match n {
        Some(x) => Some(x as int),
        None => None,
    }
}

/// An optional number without regard to its type.
pub open spec fn widen64(n: Option<i64>) -> Option<int> {
    match n {
        Some(x) => Some(x as int),
        None => None,
    }
}

/// A part of an entry.
pub open spec fn part(name: Seq<char>, value: Option<Tree>) -> Part {
    Part { name, value }
}

/// The keys of an entry, in order, with their values.
pub open spec fn entry_parts(w: WireView) -> Seq<Part> {
    seq![
        part("name"@, Some(Tree::Text(w.name))),
        part("path"@, Some(Tree::Text(w.path))),
        part("created_at"@, Some(Tree::Text(w.created_at))),
        part("destroying"@, bool_tree(w.destroying)),
        part("owner_pid"@, int_tree(widen32(w.owner_pid))),
        part("owner_started_at"@, int_tree(widen64(w.owner_started_at))),
        part("leased"@, bool_tree(w.leased)),
        part("lease_id"@, text_tree(w.lease_id)),
        part("lease_holder"@, text_tree(w.lease_holder)),
        part("leased_at"@, text_tree(w.leased_at)),
        part("expires_at"@, text_tree(w.expires_at)),
    ]
}

/// An entry as JSON.
pub open spec fn entry_tree(w: WireView) -> Tree {
    Tree::Object(flatten(entry_parts(w)))
}

/// The state as JSON: one object whose only key holds the entries.
pub open spec fn state_tree(ws: Seq<WireView>) -> Tree {
    Tree::Object(seq![("worktrees"@, Tree::List(ws.map_values(|w: WireView| entry_tree(w))))])
}

proof fn lemma_entry_keys(w: WireView)
    ensures
        distinct_parts(entry_parts(w)),
{
    reveal_strlit("name");
    reveal_strlit("path");
    reveal_strlit("created_at");
    reveal_strlit("destroying");
    reveal_strlit("owner_pid");
    reveal_strlit("owner_started_at");
    reveal_strlit("leased");
    reveal_strlit("lease_id");
    reveal_strlit("lease_holder");
    reveal_strlit("leased_at");
    reveal_strlit("expires_at");
    assert("name"@[0] != "path"@[0]);
    assert("created_at"@[0] != "destroying"@[0]);
    assert("created_at"@[0] != "expires_at"@[0]);
    assert("destroying"@[0] != "expires_at"@[0]);
    assert("owner_pid"@[0] != "leased_at"@[0]);
    let ps = entry_parts(w);
    assert forall|i: int, j: int| 0 <= i < j < ps.len() implies (#[trigger] ps[i]).name != (
    #[trigger] ps[j]).name by {
        let a = ps[i].name;
        let b = ps[j].name;
        assert(a.len() != b.len() || a[0] != b[0]);
    }
}

proof fn lemma_flatten_step(ps: Seq<Part>, k: int)
    requires
        0 <= k < ps.len(),
    ensures
        flatten(ps.take(k + 1)) == match ps[k].value {
            Some(t) => flatten(ps.take(k)).push((ps[k].name, t)),
            None => flatten(ps.take(k)),
        },
{
    assert(ps.take(k + 1).drop_last() =~= ps.take(k));
    assert(ps.take(k + 1).last() == ps[k]);
}

fn opt_text_value(s: &Option<String>) -> (r: Option<serde_json::Value>)
    ensures
        opt_tree(r) == text_tree(opt_view(*s)),
{
    match s {
        Some(t) => Some(text_value(t)),
        None => None,
    }
}

fn opt_bool_value(b: Option<bool>) -> (r: Option<serde_json::Value>)
    ensures
        opt_tree(r) == bool_tree(b),
{
    match b {
        Some(x) => Some(bool_value(x)),
        None => None,
    }
}

fn opt_int_value(n: Option<i64>) -> (r: Option<serde_json::Value>)
    ensures
        opt_tree(r) == int_tree(widen64(n)),
{
    match n {
        Some(x) => Some(int_value(x)),
        None => None,
    }
}

/// An entry as JSON.
fn entry_value(w: &WireEntry) -> (r: serde_json::Value)
    ensures
        tree_of(r) == entry_tree(w@),
{
    let ghost ps = entry_parts(w@);
    proof {
        lemma_entry_keys(w@);
        lemma_flatten(ps);
        lemma_flatten_step(ps, 0);
        lemma_flatten_step(ps, 1);
        lemma_flatten_step(ps, 2);
        lemma_flatten_step(ps, 3);
        lemma_flatten_step(ps, 4);
        lemma_flatten_step(ps, 5);
        lemma_flatten_step(ps, 6);
        lemma_flatten_step(ps, 7);
        lemma_flatten_step(ps, 8);
        lemma_flatten_step(ps, 9);
        lemma_flatten_step(ps, 10);
        assert(ps.take(0) =~= seq![]);
        assert(ps.take(11) =~= ps);
    }
    let pid: Option<i64> = match w.owner_pid {
        Some(p) => Some(p as i64),
        None => None,
    };
    let mut ms: Vec<(String, serde_json::Value)> = Vec::new();
    assert(members(ms@) =~= flatten(ps.take(0)));
    push_part(&mut ms, "name", Some(text_value(&w.name)));
    push_part(&mut ms, "path", Some(text_value(&w.path)));
    push_part(&mut ms, "created_at", Some(text_value(&w.created_at)));
    push_part(&mut ms, "destroying", opt_bool_value(w.destroying));
    push_part(&mut ms, "owner_pid", opt_int_value(pid));
    push_part(&mut ms, "owner_started_at", opt_int_value(w.owner_started_at));
    push_part(&mut ms, "leased", opt_bool_value(w.leased));
    push_part(&mut ms, "lease_id", opt_text_value(&w.lease_id));
    push_part(&mut ms, "lease_holder", opt_text_value(&w.lease_holder));
    push_part(&mut ms, "leased_at", opt_text_value(&w.leased_at));
    push_part(&mut ms, "expires_at", opt_text_value(&w.expires_at));
    assert(members(ms@) == flatten(ps));
    object_value(ms)
}

/// The entries as they are written.
pub open spec fn wires(s: Seq<EntryView>) -> Seq<WireView> {
    s.map_values(|e: EntryView| wire_of(e))
}

/// The instants of all entries are representable.
pub open spec fn all_wf(s: Seq<EntryView>) -> bool {
    forall|i: int| 0 <= i < s.len() ==> (#[trigger] s[i]).wf()
}

/// The instants of an entry lie in years of four digits.
pub open spec fn four_digit_years(e: EntryView) -> bool {
    e.created_at.in_four_digit_years() && e.leased_at.in_four_digit_years()
        && e.expires_at.in_four_digit_years()
}

/// The entries with the first instant of the year 1 taken as the zero
/// sentinel.
pub open spec fn normal_entries(s: Seq<EntryView>) -> Seq<EntryView> {
    s.map_values(|e: EntryView| normal_entry(e))
}

/// The text of the state file: JSON indented by two blanks, and a line feed.
/// Reading it gives the state back, as far as its instants lie in years of
/// four digits.
pub fn state_bytes(state: &State) -> (r: Vec<u8>)
    requires
        all_wf(state@),
    ensures
        r@ == encode_utf8(json_pretty_text(state_tree(wires(state@)))).push(10),
        (forall|i: int| 0 <= i < state@.len() ==> four_digit_years(#[trigger] state@[i]))
            ==> state_parsed(r@) == Some(normal_entries(state@)),
{
    let mut items: Vec<serde_json::Value> = Vec::new();
    let ghost ws = wires(state@);
    let ghost ts = ws.map_values(|w: WireView| entry_tree(w));
    let ghost s = state@;
    let mut i: usize = 0;
    while i < state.worktrees.len()
        invariant
            i <= state.worktrees.len(),
            s == state@,
            all_wf(s),
            ws == wires(s),
            ts == ws.map_values(|w: WireView| entry_tree(w)),
            trees(items@) =~= ts.take(i as int),
            forall|j: int|
                0 <= j < i && four_digit_years(s[j]) ==> entry_from(#[trigger] ts[j]) == Some(
                    normal_entry(s[j]),
                ),
        decreases state.worktrees.len() - i,
    {
        assert(s[i as int] == state.worktrees@[i as int]@);
        assert(s[i as int].wf());
        let w = WireEntry::from_entry(&state.worktrees[i]);
        let v = entry_value(&w);
        proof {
            assert(ws[i as int] == w@);
            assert(ts[i as int] == entry_tree(w@));
            lemma_entry_round_trip(w@);
        }
        let ghost before = items@;
        items.push(v);
        assert(trees(items@) =~= trees(before).push(tree_of(v)));
        i += 1;
    }
    assert(ts.take(state.worktrees.len() as int) =~= ts);
    let list = list_value(items);
    let mut ms: Vec<(String, serde_json::Value)> = Vec::new();
    ms.push(("worktrees".to_owned(), list));
    assert(members(ms@) =~= seq![("worktrees"@, Tree::List(ts))]);
    let top = object_value(ms);
    let text = print_json_pretty(&top);
    proof {
        assert(tree_of(top) == state_tree(ws));
        lemma_state_plain(ws);
    }
    let src = text.as_str().as_bytes();
    let mut out: Vec<u8> = Vec::new();
    let mut k: usize = 0;
    while k < src.len()
        invariant
            k <= src@.len(),
            out@ == src@.take(k as int),
        decreases src@.len() - k,
    {
        out.push(src[k]);
        k += 1;
    }
    assert(src@.take(src@.len() as int) =~= src@);
    out.push(10);
    proof {
        if forall|j: int| 0 <= j < s.len() ==> four_digit_years(#[trigger] s[j]) {
            assert forall|j: int| 0 <= j < ts.len() implies entry_from(#[trigger] ts[j]) == Some(
                normal_entries(s)[j],
            ) by {
                assert(four_digit_years(s[j]));
            }
            lemma_entries_from(ts, normal_entries(s));
            assert(member(seq![("worktrees"@, Tree::List(ts))], "worktrees"@) == Some(
                Tree::List(ts),
            ));
        }
    }
    out
}

proof fn lemma_state_plain(ws: Seq<WireView>)
    ensures
        plain(state_tree(ws), 100),
{
    let ts = ws.map_values(|w: WireView| entry_tree(w));
    assert forall|i: int| 0 <= i < ts.len() implies plain(#[trigger] ts[i], 98) by {
        lemma_parts_plain(entry_parts(ws[i]), 97);
        assert(ts[i] == entry_tree(ws[i]));
    }
    assert(plain(Tree::List(ts), 99));
}

proof fn lemma_parts_plain(ps: Seq<Part>, n: nat)
    requires
        forall|i: int|
            0 <= i < ps.len() ==> ((#[trigger] ps[i]).value matches Some(t) ==> plain(t, n)),
    ensures
        forall|i: int| 0 <= i < flatten(ps).len() ==> plain((#[trigger] flatten(ps)[i]).1, n),
    decreases ps.len(),
{
    if ps.len() > 0 {
        let front = ps.drop_last();
        assert forall|i: int| 0 <= i < front.len() implies ((#[trigger] front[i]).value matches Some(
            t,
        ) ==> plain(t, n)) by {
            assert(front[i] == ps[i]);
        }
        lemma_parts_plain(front, n);
        assert(ps[ps.len() - 1] == ps.last());
        let rest = flatten(front);
        assert forall|i: int| 0 <= i < flatten(ps).len() implies plain(
            (#[trigger] flatten(ps)[i]).1,
            n,
        ) by {
            if i < rest.len() {
                assert(flatten(ps)[i] == rest[i]);
            }
        }
    }
}

// ---------- reading ----------

/// A text in a field that must be there.
pub open spec fn text_at(t: Tree, name: Seq<char>, k: int) -> Option<Seq<char>> {
    match field(t, name, k) {
        Some(Tree::Text(s)) => Some(s),
        _ => None,
    }
}

/// A text in a field that may be left out; none for anything else.
pub open spec fn opt_text_at(t: Tree, name: Seq<char>, k: int) -> Option<
    Option<Seq<char>>,
> {
    match field(t, name, k) {
        None => Some(None),
        Some(Tree::Text(s)) => Some(Some(s)),
        _ => None,
    }
}

/// A truth value in a field that may be left out; none for anything else.
pub open spec fn opt_bool_at(t: Tree, name: Seq<char>, k: int) -> Option<Option<bool>> {
    match field(t, name, k) {
        None => Some(None),
        Some(Tree::Bool(b)) => Some(Some(b)),
        _ => None,
    }
}

/// A number of 32 bits in a field that may be left out; none for anything
/// else.
pub open spec fn opt_i32_at(t: Tree, name: Seq<char>, k: int) -> Option<Option<i32>> {
    match field(t, name, k) {
        None => Some(None),
        Some(Tree::Int(n)) => if i32::MIN <= n <= i32::MAX {
            Some(Some(n as i32))
        } else {
            None
        },
        _ => None,
    }
}

/// A number of 64 bits in a field that may be left out; none for anything
/// else.
pub open spec fn opt_i64_at(t: Tree, name: Seq<char>, k: int) -> Option<Option<i64>> {
    match field(t, name, k) {
        None => Some(None),
        Some(Tree::Int(n)) => if i64::MIN <= n <= i64::MAX {
            Some(Some(n as i64))
        } else {
            None
        },
        _ => None,
    }
}

/// The entry that a JSON value stands for: a record whose fields, as far as
/// they are known, hold values of their kind; name, path and creation time
/// must be there.
pub open spec fn wire_from(t: Tree) -> Option<WireView> {
    if !is_record(t, 11) {
        None
    } else {
        match (
            text_at(t, "name"@, 0),
            text_at(t, "path"@, 1),
            text_at(t, "created_at"@, 2),
            opt_bool_at(t, "destroying"@, 3),
            opt_i32_at(t, "owner_pid"@, 4),
            opt_i64_at(t, "owner_started_at"@, 5),
            opt_bool_at(t, "leased"@, 6),
            opt_text_at(t, "lease_id"@, 7),
            opt_text_at(t, "lease_holder"@, 8),
            opt_text_at(t, "leased_at"@, 9),
            opt_text_at(t, "expires_at"@, 10),
        ) {
            (
                Some(name),
                Some(path),
                Some(created_at),
                Some(destroying),
                Some(owner_pid),
                Some(owner_started_at),
                Some(leased),
                Some(lease_id),
                Some(lease_holder),
                Some(leased_at),
                Some(expires_at),
            ) => Some(
                WireView {
                    name,
                    path,
                    created_at,
                    destroying,
                    owner_pid,
                    owner_started_at,
                    leased,
                    lease_id,
                    lease_holder,
                    leased_at,
                    expires_at,
                },
            ),
            _ => None,
        }
    }
}

/// The entry that a JSON value stands for, with its instants read.
pub open spec fn entry_from(t: Tree) -> Option<EntryView> {
    match wire_from(t) {
        Some(w) => entry_of(w),
        None => None,
    }
}

/// The entries that JSON values stand for; none where one stands for none.
pub open spec fn entries_from(ts: Seq<Tree>) -> Option<Seq<EntryView>>
    decreases ts.len(),
{
    if ts.len() == 0 {
        Some(seq![])
    } else {
        match (entries_from(ts.drop_last()), entry_from(ts.last())) {
            (Some(rest), Some(e)) => Some(rest.push(e)),
            _ => None,
        }
    }
}

/// The state that a JSON value stands for: a record whose `worktrees`, where
/// it has any, are a list of entries.
pub open spec fn state_from(t: Tree) -> Option<Seq<EntryView>> {
    if !is_record(t, 1) {
        None
    } else {
        match field(t, "worktrees"@, 0) {
            None => Some(seq![]),
            Some(Tree::List(ts)) => entries_from(ts),
            _ => None,
        }
    }
}

/// The state that the bytes of a state file stand for; none where the file is
/// corrupt.
pub open spec fn state_parsed(bytes: Seq<u8>) -> Option<Seq<EntryView>> {
    match json_parsed(bytes) {
        Some(t) => state_from(t),
        None => None,
    }
}

proof fn lemma_entries_from(ts: Seq<Tree>, es: Seq<EntryView>)
    requires
        ts.len() == es.len(),
        forall|i: int| 0 <= i < ts.len() ==> entry_from(#[trigger] ts[i]) == Some(es[i]),
    ensures
        entries_from(ts) == Some(es),
    decreases ts.len(),
{
    if ts.len() == 0 {
        assert(es =~= seq![]);
    } else {
        assert forall|i: int| 0 <= i < ts.drop_last().len() implies entry_from(
            #[trigger] ts.drop_last()[i],
        ) == Some(es.drop_last()[i]) by {
            assert(ts.drop_last()[i] == ts[i]);
        }
        lemma_entries_from(ts.drop_last(), es.drop_last());
        assert(entry_from(ts[ts.len() - 1]) == Some(es[es.len() - 1]));
        assert(es.drop_last().push(es.last()) =~= es);
    }
}

proof fn lemma_entry_round_trip(w: WireView)
    ensures
        wire_from(entry_tree(w)) == Some(w),
{
    let ps = entry_parts(w);
    lemma_entry_keys(w);
    lemma_flatten(ps);
    assert(member(flatten(ps), ps[0].name) == ps[0].value);
    assert(member(flatten(ps), ps[1].name) == ps[1].value);
    assert(member(flatten(ps), ps[2].name) == ps[2].value);
    assert(member(flatten(ps), ps[3].name) == ps[3].value);
    assert(member(flatten(ps), ps[4].name) == ps[4].value);
    assert(member(flatten(ps), ps[5].name) == ps[5].value);
    assert(member(flatten(ps), ps[6].name) == ps[6].value);
    assert(member(flatten(ps), ps[7].name) == ps[7].value);
    assert(member(flatten(ps), ps[8].name) == ps[8].value);
    assert(member(flatten(ps), ps[9].name) == ps[9].value);
    assert(member(flatten(ps), ps[10].name) == ps[10].value);
}

fn read_text(v: &serde_json::Value, name: &str, k: usize) -> (r: Option<String>)
    ensures
        opt_view(r) == text_at(tree_of(*v), name@, k as int),
{
    match get_field(v, name, k) {
        Some(x) => match as_text(x) {
            Some(s) => Some(s.to_owned()),
            None => None,
        },
        None => None,
    }
}

/// An optional text that was read, by its view.
pub open spec fn read_view(r: Option<Option<String>>) -> Option<Option<Seq<char>>> {
    match r {
        Some(s) => Some(opt_view(s)),
        None => None,
    }
}

fn read_opt_text(v: &serde_json::Value, name: &str, k: usize) -> (r: Option<Option<String>>)
    ensures
        read_view(r) == opt_text_at(tree_of(*v), name@, k as int),
{
    match get_field(v, name, k) {
        Some(x) => match as_text(x) {
            Some(s) => Some(Some(s.to_owned())),
            None => None,
        },
        None => Some(None),
    }
}

fn read_opt_bool(v: &serde_json::Value, name: &str, k: usize) -> (r: Option<Option<bool>>)
    ensures
        r == opt_bool_at(tree_of(*v), name@, k as int),
{
    match get_field(v, name, k) {
        Some(x) => match as_bool(x) {
            Some(b) => Some(Some(b)),
            None => None,
        },
        None => Some(None),
    }
}

fn read_opt_i64(v: &serde_json::Value, name: &str, k: usize) -> (r: Option<Option<i64>>)
    ensures
        r == opt_i64_at(tree_of(*v), name@, k as int),
{
    match get_field(v, name, k) {
        Some(x) => match as_int(x) {
            Some(n) => Some(Some(n)),
            None => None,
        },
        None => Some(None),
    }
}

fn read_opt_i32(v: &serde_json::Value, name: &str, k: usize) -> (r: Option<Option<i32>>)
    ensures
        r == opt_i32_at(tree_of(*v), name@, k as int),
{
    match get_field(v, name, k) {
        Some(x) => match as_int(x) {
            Some(n) => if i32::MIN as i64 <= n && n <= i32::MAX as i64 {
                Some(Some(n as i32))
            } else {
                None
            },
            None => None,
        },
        None => Some(None),
    }
}

/// The entry that a JSON value stands for.
fn read_wire(v: &serde_json::Value) -> (r: Option<WireEntry>)
    ensures
        match wire_from(tree_of(*v)) {
            Some(w) => r matches Some(x) && x@ == w,
            None => r is None,
        },
{
    if !stands_for_record(v, 11) {
        return None;
    }
    match (
        read_text(v, "name", 0),
        read_text(v, "path", 1),
        read_text(v, "created_at", 2),
        read_opt_bool(v, "destroying", 3),
        read_opt_i32(v, "owner_pid", 4),
        read_opt_i64(v, "owner_started_at", 5),
        read_opt_bool(v, "leased", 6),
        read_opt_text(v, "lease_id", 7),
        read_opt_text(v, "lease_holder", 8),
        read_opt_text(v, "leased_at", 9),
        read_opt_text(v, "expires_at", 10),
    ) {
        (
            Some(name),
            Some(path),
            Some(created_at),
            Some(destroying),
            Some(owner_pid),
            Some(owner_started_at),
            Some(leased),
            Some(lease_id),
            Some(lease_holder),
            Some(leased_at),
            Some(expires_at),
        ) => Some(
            WireEntry {
                name,
                path,
                created_at,
                destroying,
                owner_pid,
                owner_started_at,
                leased,
                lease_id,
                lease_holder,
                leased_at,
                expires_at,
            },
        ),
        _ => None,
    }
}

/// The state that a JSON value stands for.
pub fn state_from_value(v: &serde_json::Value) -> (r: Option<State>)
    ensures
        match state_from(tree_of(*v)) {
            Some(s) => r matches Some(x) && x@ == s && all_wf(s),
            None => r is None,
        },
{
    if !stands_for_record(v, 1) {
        return None;
    }
    let list = match get_field(v, "worktrees", 0) {
        Some(x) => match as_list(x) {
            Some(items) => items,
            None => return None,
        },
        None => return Some(State::default()),
    };
    let ghost ts = trees(list@);
    let mut out: Vec<WorktreeEntry> = Vec::new();
    let mut i: usize = 0;
    proof {
        assert(ts.take(0) =~= seq![]);
        assert(entry_views(out@) =~= Seq::<EntryView>::empty());
    }
    while i < list.len()
        invariant
            i <= list.len(),
            ts == trees(list@),
            state_from(tree_of(*v)) == entries_from(ts),
            entries_from(ts.take(i as int)) == Some(entry_views(out@)),
            all_wf(entry_views(out@)),
        decreases list.len() - i,
    {
        broadcast use lemma_entry_views_push;

        proof {
            assert(ts.take(i + 1).drop_last() =~= ts.take(i as int));
            assert(ts.take(i + 1).last() == tree_of(list@[i as int]));
        }
        let entry: Option<WorktreeEntry> = match read_wire(&list[i]) {
            Some(w) => w.to_entry(),
            None => None,
        };
        match entry {
            Some(e) => {
                out.push(e);
            },
            None => {
                proof {
                    lemma_entries_fail(ts, i as int);
                }
                return None;
            },
        }
        i += 1;
    }
    assert(ts.take(list.len() as int) =~= ts);
    Some(State { worktrees: out })
}

proof fn lemma_entries_fail(ts: Seq<Tree>, i: int)
    requires
        0 <= i < ts.len(),
        entry_from(ts[i]) is None,
    ensures
        entries_from(ts) is None,
    decreases ts.len(),
{
    if i < ts.len() - 1 {
        assert(ts.drop_last()[i] == ts[i]);
        lemma_entries_fail(ts.drop_last(), i);
    }
}

/// The state that the bytes of a state file stand for. An error says what is
/// wrong with the file.
pub fn parse_state(bytes: &[u8]) -> (r: Result<State, String>)
    ensures
        match state_parsed(bytes@) {
            Some(s) => r matches Ok(x) && x@ == s && all_wf(s),
            None => r is Err,
        },
{
    match parse_json(bytes) {
        Ok(v) => match state_from_value(&v) {
            Some(s) => Ok(s),
            None => Err("not a pool state".to_owned()),
        },
        Err(e) => Err(e),
    }
}

/// An empty state is what a record with an empty list of worktrees, or
/// without one, stands for.
pub proof fn law_no_worktrees_is_empty_state(t: Tree)
    requires
        is_record(t, 1),
        field(t, "worktrees"@, 0) is None || field(t, "worktrees"@, 0) == Some(Tree::List(seq![])),
    ensures
        state_from(t) == Some(Seq::<EntryView>::empty()),
{
}

/// The keys of an entry that are looked at.
pub open spec fn entry_keys() -> Seq<Seq<char>> {
    seq![
        "name"@,
        "path"@,
        "created_at"@,
        "destroying"@,
        "owner_pid"@,
        "owner_started_at"@,
        "leased"@,
        "lease_id"@,
        "lease_holder"@,
        "leased_at"@,
        "expires_at"@,
    ]
}

/// Keys that are not known do not matter: two objects that agree on the known
/// ones stand for the same entry.
pub proof fn law_unknown_keys_are_ignored(ms: Seq<(Seq<char>, Tree)>, other: Seq<(Seq<char>, Tree)>)
    requires
        forall|i: int|
            0 <= i < entry_keys().len() ==> member(ms, #[trigger] entry_keys()[i]) == member(
                other,
                entry_keys()[i],
            ),
    ensures
        wire_from(Tree::Object(ms)) == wire_from(Tree::Object(other)),
        entry_from(Tree::Object(ms)) == entry_from(Tree::Object(other)),
{
    assert(entry_keys()[0] == "name"@);
    assert(entry_keys()[1] == "path"@);
    assert(entry_keys()[2] == "created_at"@);
    assert(entry_keys()[3] == "destroying"@);
    assert(entry_keys()[4] == "owner_pid"@);
    assert(entry_keys()[5] == "owner_started_at"@);
    assert(entry_keys()[6] == "leased"@);
    assert(entry_keys()[7] == "lease_id"@);
    assert(entry_keys()[8] == "lease_holder"@);
    assert(entry_keys()[9] == "leased_at"@);
    assert(entry_keys()[10] == "expires_at"@);
}

// ---------- the state in an environment ----------

/// What reading the state file in an environment gives.
pub open spec fn state_file_in<E: TreehouseEnv>(env: &E, path: Seq<char>, f: StateFile) -> bool {
    match env.file_view(path) {
        FileView::Missing => f is Missing,
        FileView::Unreadable => f is Unreadable,
        FileView::Content(bytes) => match state_parsed(bytes) {
            Some(s) => f matches StateFile::Parsed(x) && x@ == s,
            None => f is Corrupt,
        },
    }
}

/// Reads the state file of a pool in an environment.
pub fn read_state_file_with_env<E: TreehouseEnv>(pool_dir: &str, env: &E) -> (r: StateFile)
    ensures
        state_file_in(env, join_spec(pool_dir@, "treehouse-state.json"@), r),
{
    let path = State::state_file_path(pool_dir);
    match env.read_bytes(&path) {
        Ok(bytes) => match parse_state(bytes.as_slice()) {
            Ok(s) => StateFile::Parsed(s),
            Err(e) => StateFile::Corrupt(e),
        },
        Err(e) => match e.kind {
            EnvErrorKind::NotFound => StateFile::Missing,
            EnvErrorKind::Other => StateFile::Unreadable(e.message),
        },
    }
}

impl State {
    /// The state of a pool in an environment. A corrupt one is recovered from
    /// `slots`, the listing of the pool directory.
    pub fn read_state_with_env<E: TreehouseEnv>(
        pool_dir: &str,
        env: &E,
        slots: &Result<Vec<Result<Slot, String>>, String>,
        now: Timestamp,
    ) -> (r: Result<State, StateError>)
        ensures
            match env.file_view(join_spec(pool_dir@, "treehouse-state.json"@)) {
                FileView::Missing => r matches Ok(s) && s@ == Seq::<EntryView>::empty(),
                FileView::Unreadable => r matches Err(StateError::Read(path, _)) && path@
                    == join_spec(pool_dir@, "treehouse-state.json"@),
                FileView::Content(bytes) => match state_parsed(bytes) {
                    Some(s) => r matches Ok(x) && x@ == s,
                    None => match *slots {
                        Err(e) => r matches Err(StateError::RecoverScan(path, text)) && path@
                            == join_spec(pool_dir@, "treehouse-state.json"@) && text@ == e@,
                        Ok(list) => match slots_recovered(pool_dir@, list@, now) {
                            Ok(entries) => r matches Ok(x) && x@ == entries,
                            Err(e) => r matches Err(StateError::RecoverScan(path, text)) && path@
                                == join_spec(pool_dir@, "treehouse-state.json"@) && text@ == e,
                        },
                    },
                },
            },
    {
        let file = read_state_file_with_env(pool_dir, env);
        State::read_state(pool_dir, file, slots, now)
    }
}

/// A state is read with all its entries, in order, or not at all: one value
/// that stands for no entry makes the whole list stand for nothing.
pub proof fn law_entries_are_read_all_or_none(ts: Seq<Tree>)
    ensures
        entries_from(ts) is None <==> exists|i: int|
            0 <= i < ts.len() && entry_from(#[trigger] ts[i]) is None,
        entries_from(ts) matches Some(es) ==> es.len() == ts.len() && forall|i: int|
            0 <= i < ts.len() ==> entry_from(#[trigger] ts[i]) == Some(es[i]),
    decreases ts.len(),
{
    if ts.len() > 0 {
        let front = ts.drop_last();
        law_entries_are_read_all_or_none(front);
        assert(forall|i: int| 0 <= i < front.len() ==> #[trigger] front[i] == ts[i]);
        assert(ts[ts.len() - 1] == ts.last());
        if entries_from(front) is None {
            let i = choose|i: int| 0 <= i < front.len() && entry_from(#[trigger] front[i]) is None;
            assert(entry_from(ts[i]) is None);
        } else if exists|i: int| 0 <= i < ts.len() && entry_from(#[trigger] ts[i]) is None {
            let i = choose|i: int| 0 <= i < ts.len() && entry_from(#[trigger] ts[i]) is None;
            if i < front.len() {
                assert(entry_from(front[i]) is None);
            }
        }
        if let Some(es) = entries_from(ts) {
            let rest = entries_from(front)->0;
            assert forall|i: int| 0 <= i < ts.len() implies entry_from(#[trigger] ts[i]) == Some(
                es[i],
            ) by {
                if i < front.len() {
                    assert(entry_from(front[i]) == Some(rest[i]));
                }
            }
        }
    }
}

/// An entry needs a name, a path and a creation time that are texts; it is read
/// as these say, and what is left out of it counts as absent.
pub proof fn law_entry_needs_name_path_and_time(t: Tree)
    ensures
        wire_from(t) matches Some(w) ==> {
            &&& field(t, "name"@, 0) == Some(Tree::Text(w.name))
            &&& field(t, "path"@, 1) == Some(Tree::Text(w.path))
            &&& field(t, "created_at"@, 2) == Some(Tree::Text(w.created_at))
            &&& field(t, "leased"@, 6) is None <==> w.leased is None
            &&& field(t, "leased"@, 6) matches Some(x) ==> (w.leased matches Some(b) && x
                == Tree::Bool(b))
            &&& field(t, "destroying"@, 3) is None <==> w.destroying is None
            &&& field(t, "destroying"@, 3) matches Some(x) ==> (w.destroying matches Some(b) && x
                == Tree::Bool(b))
            &&& field(t, "owner_pid"@, 4) is None <==> w.owner_pid is None
            &&& field(t, "owner_pid"@, 4) matches Some(x) ==> (w.owner_pid matches Some(n) && x
                == Tree::Int(n as int))
            &&& field(t, "owner_started_at"@, 5) is None <==> w.owner_started_at is None
            &&& field(t, "owner_started_at"@, 5) matches Some(x) ==> (
            w.owner_started_at matches Some(n) && x == Tree::Int(n as int))
            &&& field(t, "lease_id"@, 7) is None <==> w.lease_id is None
            &&& field(t, "lease_id"@, 7) matches Some(x) ==> (w.lease_id matches Some(s) && x
                == Tree::Text(s))
            &&& field(t, "lease_holder"@, 8) is None <==> w.lease_holder is None
            &&& field(t, "lease_holder"@, 8) matches Some(x) ==> (w.lease_holder matches Some(s) && x
                == Tree::Text(s))
            &&& field(t, "leased_at"@, 9) is None <==> w.leased_at is None
            &&& field(t, "leased_at"@, 9) matches Some(x) ==> (w.leased_at matches Some(s) && x
                == Tree::Text(s))
            &&& field(t, "expires_at"@, 10) is None <==> w.expires_at is None
            &&& field(t, "expires_at"@, 10) matches Some(x) ==> (w.expires_at matches Some(s) && x
                == Tree::Text(s))
        },
{
}

/// A file is a state exactly if it is JSON, a record, and its worktrees are
/// left out or a list of entries.
pub proof fn law_state_parses_exactly(bytes: Seq<u8>)
    ensures
        state_parsed(bytes) is Some <==> (json_parsed(bytes) matches Some(t) && is_record(t, 1)
            && match field(t, "worktrees"@, 0) {
            None => true,
            Some(x) => x matches Tree::List(ts) && forall|i: int|
                0 <= i < ts.len() ==> entry_from(#[trigger] ts[i]) is Some,
        }),
{
    if let Some(t) = json_parsed(bytes) {
        if let Some(Tree::List(ts)) = field(t, "worktrees"@, 0) {
            law_entries_are_read_all_or_none(ts);
            if entries_from(ts) is None {
                let i = choose|i: int| 0 <= i < ts.len() && entry_from(#[trigger] ts[i]) is None;
                assert(!(entry_from(ts[i]) is Some));
            }
        }
    }
}

} // verus!
