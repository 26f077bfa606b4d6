//! The check for a newer release: versions, and the cache of the last check.

use core::cmp::Ordering;
use vstd::prelude::*;
use vstd::string::*;
use vstd::utf8::*;

use crate::json::{
    as_text, distinct, field, get_field, get_member, is_record, json_parsed, json_text, member,
    members, object_value, parse_json, plain, print_json, stands_for_record, text_value, tree_of,
    Tree,
};
use crate::path::{join, join_spec};
use crate::result::put;
use crate::text::{
    all_space, begins, begins_with, chars_of, decimal, first_of, is_space, lemma_decimal_value,
    lemma_first_of_unique, lemma_split_first, lemma_split_none, lemma_text_order, lemma_trim_around,
    natural, opt_view, parse_u64, split, split_on, text_before, text_less, trim, trimmed,
    trimmed_end, trimmed_start, views,
};
use crate::time::{is_longer_ago, longer_ago, parse_rfc3339, rfc3339, rfc3339_instant, Timestamp};

verus! {

/// Where the latest release is told.
pub const DEFAULT_GITHUB_API_URL: &'static str =
    "https://api.github.com/repos/quangdang46/treehouse_rust/releases/latest";

/// How many seconds the result of a check is kept.
pub const CACHE_TTL_SECS: u64 = 86400;

/// A version: three numbers, and the name of a prerelease where it is one.
#[derive(Clone, Debug, PartialEq, Eq)]
pub struct Version {
    pub major: u64,
    pub minor: u64,
    pub patch: u64,
    pub prerelease: Option<String>,
}

/// What a [`Version`] says.
#[verifier::ext_equal]
pub struct VersionView {
    pub major: u64,
    pub minor: u64,
    pub patch: u64,
    pub prerelease: Option<Seq<char>>,
}

impl View for Version {
    type V = VersionView;

    open spec fn view(&self) -> VersionView {
        VersionView {
            major: self.major,
            minor: self.minor,
            patch: self.patch,
            prerelease: opt_view(self.prerelease),
        }
    }
}

/// `s` without the letters `v` that it begins with.
pub open spec fn without_v(s: Seq<char>) -> Seq<char>
    decreases s.len(),
{
    if s.len() > 0 && s[0] == 'v' {
        without_v(s.skip(1))
    } else {
        s
    }
}

/// The number of a part of a version.
pub open spec fn part(ps: Seq<Seq<char>>, i: int) -> Option<u64> {
    if i < ps.len() {
        match natural(ps[i]) {
            Some(n) => if n <= u64::MAX {
                Some(n as u64)
            } else {
                None
            },
            None => None,
        }
    } else {
        None
    }
}

/// The version that a text stands for: leading `v`s aside, three numbers with
/// dots between them, and what follows the first hyphen as the prerelease.
/// Further parts after the third are not looked at.
pub open spec fn version_of(s: Seq<char>) -> Option<VersionView> {
    let t = without_v(trimmed(s));
    let cut = first_of(t, '-');
    let core = t.take(cut);
    let prerelease = if cut < t.len() {
        Some(t.skip(cut + 1))
    } else {
        None
    };
    let ps = split(core, '.');
    match (part(ps, 0), part(ps, 1), part(ps, 2)) {
        (Some(major), Some(minor), Some(patch)) => Some(
            VersionView { major, minor, patch, prerelease },
        ),
        _ => None,
    }
}

fn part_text(ps: &Vec<String>, i: usize) -> (r: Option<u64>)
    ensures
        r == part(views(ps@), i as int),
{
    assert(views(ps@).len() == ps.len());
    if i < ps.len() {
        assert(views(ps@)[i as int] == ps@[i as int]@);
        parse_u64(&ps[i])
    } else {
        None
    }
}

impl Version {
    /// Reads a version; none where the text is none.
    pub fn parse(s: &str) -> (r: Option<Version>)
        ensures
            match version_of(s@) {
                Some(v) => r matches Some(w) && w@ == v,
                None => r is None,
            },
    {
        let all = trim(s);
        let v = chars_of(&all);
        let n: usize = v.len();
        let mut a: usize = 0;
        assert(all@.skip(0) =~= all@);
        while a < n && v[a] == 'v'
            invariant
                v@ == all@,
                n == v.len(),
                a <= n,
                without_v(all@.skip(a as int)) == without_v(all@),
            decreases n - a,
        {
            assert(all@.skip(a as int)[0] == v@[a as int]);
            assert(all@.skip(a as int).skip(1) =~= all@.skip(a + 1));
            a += 1;
        }
        let ghost t = all@.skip(a as int);
        proof {
            if a < n {
                assert(t[0] == v@[a as int]);
            }
            assert(t == without_v(trimmed(s@)));
        }
        let mut b: usize = a;
        while b < n && v[b] != '-'
            invariant
                v@ == all@,
                n == v.len(),
                a <= b <= n,
                forall|k: int| a <= k < b ==> v@[k] != '-',
            decreases n - b,
        {
            b += 1;
        }
        proof {
            assert forall|k: int| 0 <= k < b - a implies t[k] != '-' by {
                assert(t[k] == v@[a + k]);
            }
            if b < n {
                assert(t[b - a] == v@[b as int]);
            }
            crate::text::lemma_first_of_unique(t, '-', b - a);
        }
        let core = all.as_str().substring_char(a, b);
        assert(core@ =~= t.take(b - a));
        let prerelease: Option<String> = if b < n {
            let p = all.as_str().substring_char(b + 1, n).to_owned();
            assert(p@ =~= t.skip(b - a + 1));
            Some(p)
        } else {
            None
        };
        let ps = split_on(core, '.');
        let major: u64 = match part_text(&ps, 0) {
            Some(x) => x,
            None => return None,
        };
        let minor: u64 = match part_text(&ps, 1) {
            Some(x) => x,
            None => return None,
        };
        let patch: u64 = match part_text(&ps, 2) {
            Some(x) => x,
            None => return None,
        };
        Some(Version { major, minor, patch, prerelease })
    }

    /// Whether this version comes before another.
    pub fn before(&self, other: &Version) -> (r: bool)
        ensures
            r == version_less(self@, other@),
    {
        if self.major != other.major {
            return self.major < other.major;
        }
        if self.minor != other.minor {
            return self.minor < other.minor;
        }
        if self.patch != other.patch {
            return self.patch < other.patch;
        }
        match (&self.prerelease, &other.prerelease) {
            (Some(a), Some(b)) => text_before(a, b),
            (Some(_), None) => true,
            (None, _) => false,
        }
    }
}

/// The order of versions: by the three numbers, then a prerelease before the
/// release, prereleases by their text.
pub open spec fn version_less(a: VersionView, b: VersionView) -> bool {
    if a.major != b.major {
        a.major < b.major
    } else if a.minor != b.minor {
        a.minor < b.minor
    } else if a.patch != b.patch {
        a.patch < b.patch
    } else {
        match (a.prerelease, b.prerelease) {
            (Some(x), Some(y)) => text_less(x, y),
            (Some(_), None) => true,
            (None, _) => false,
        }
    }
}

impl PartialOrd for Version {
    fn partial_cmp(&self, other: &Version) -> (r: Option<Ordering>) {
        if self.before(other) {
            Some(Ordering::Less)
        } else if other.before(self) {
            Some(Ordering::Greater)
        } else {
            Some(Ordering::Equal)
        }
    }
}

impl vstd::std_specs::cmp::PartialOrdSpecImpl for Version {
    open spec fn obeys_partial_cmp_spec() -> bool {
        true
    }

    open spec fn partial_cmp_spec(&self, other: &Version) -> Option<Ordering> {
        if version_less(self@, other@) {
            Some(Ordering::Less)
        } else if version_less(other@, self@) {
            Some(Ordering::Greater)
        } else {
            Some(Ordering::Equal)
        }
    }
}

// ---------- the cache ----------

/// The result of a check: when it was made, and the version that it found.
#[derive(Clone, Debug, PartialEq, Eq)]
pub struct UpdateCheckCache {
    pub checked_at: String,
    pub latest_version: String,
}

/// Where the result of a check is kept: in the home directory, or in the
/// current one where there is no home.
pub fn cache_path(home: Option<&str>) -> (r: String)
    ensures
        r@ == join_spec(
            join_spec(
                match home {
                    Some(h) => h@,
                    None => "."@,
                },
                ".treehouse"@,
            ),
            "update-check.json"@,
        ),
{
    let base: &str = match home {
        Some(h) => h,
        None => ".",
    };
    join(&join(base, ".treehouse"), "update-check.json")
}

/// The version that a check found is newer than the current one. False where
/// either is no version.
pub open spec fn newer(latest: Seq<char>, current: Seq<char>) -> bool {
    match (version_of(latest), version_of(current)) {
        (Some(l), Some(c)) => version_less(c, l),
        _ => false,
    }
}

fn is_newer(latest: &str, current: &str) -> (r: bool)
    ensures
        r == newer(latest@, current@),
{
    match (Version::parse(latest), Version::parse(current)) {
        (Some(l), Some(c)) => c.before(&l),
        _ => false,
    }
}

/// The result of a check is out of date: there is none, it is older than it
/// may be, or what it found is not newer than the current version. A time that
/// does not parse does not count as old.
pub open spec fn stale(cache: Option<UpdateCheckCache>, now: Timestamp, current: Seq<char>) -> bool {
    match cache {
        None => true,
        Some(c) => {
            ||| match rfc3339_instant(c.checked_at@) {
                Some((secs, nanos)) => longer_ago(now, Timestamp { secs, nanos }, CACHE_TTL_SECS),
                None => false,
            }
            ||| !newer(c.latest_version@, current)
        },
    }
}

/// Whether a cached check, which was made at `checked`, is out of date.
pub fn is_check_stale(
    checked: Option<Timestamp>,
    now: Timestamp,
    latest: &str,
    current: &str,
) -> (r: bool)
    requires
        now.wf(),
        checked matches Some(t) ==> t.wf(),
    ensures
        r == ((checked matches Some(t) && longer_ago(now, t, CACHE_TTL_SECS)) || !newer(
            latest@,
            current@,
        )),
        now.nanos < crate::time::NANOS && (checked matches Some(t) ==> t.nanos
            < crate::time::NANOS) ==> r == ((checked matches Some(t) && now.value() - t.value()
            > CACHE_TTL_SECS * crate::time::NANOS) || !newer(latest@, current@)),
{
    if let Some(t) = checked {
        if is_longer_ago(now, t, CACHE_TTL_SECS) {
            return true;
        }
    }
    !is_newer(latest, current)
}

/// Whether the result of the last check is out of date.
pub fn is_cache_stale(cache: &Option<UpdateCheckCache>, now: Timestamp, current: &str) -> (r: bool)
    requires
        now.wf(),
    ensures
        r == stale(*cache, now, current@),
{
    match cache {
        None => true,
        Some(c) => is_check_stale(parse_rfc3339(&c.checked_at), now, &c.latest_version, current),
    }
}

/// Whether the last check found a newer version.
pub fn update_available(cache: &Option<UpdateCheckCache>, current: &str) -> (r: bool)
    ensures
        r == match *cache {
            Some(c) => newer(c.latest_version@, current@),
            None => false,
        },
{
    match cache {
        None => false,
        Some(c) => is_newer(&c.latest_version, current),
    }
}

/// The result of a check that was made now.
pub fn new_cache(latest: &str, now: Timestamp) -> (r: UpdateCheckCache)
    requires
        now.wf(),
    ensures
        r.latest_version@ == latest@,
        now.in_four_digit_years() ==> rfc3339_instant(r.checked_at@) == Some((now.secs, now.nanos)),
        r.checked_at@ == crate::time::rfc3339_text(now.secs, now.nanos),
{
    UpdateCheckCache { checked_at: rfc3339(now), latest_version: latest.to_owned() }
}

/// The text that a JSON object has under a key; none where there is no such
/// key, or something else under it.
pub open spec fn text_at(t: Tree, key: Seq<char>) -> Option<Seq<char>> {
    match t {
        Tree::Object(ms) => match member(ms, key) {
            Some(Tree::Text(s)) => Some(s),
            _ => None,
        },
        _ => None,
    }
}

fn text_under(v: &serde_json::Value, key: &str) -> (r: Option<String>)
    ensures
        opt_view(r) == text_at(tree_of(*v), key@),
{
    match get_member(v, key) {
        Some(x) => match as_text(x) {
            Some(s) => Some(s.to_owned()),
            None => None,
        },
        None => None,
    }
}

/// A text in a field of a record.
pub open spec fn text_in(t: Tree, name: Seq<char>, k: int) -> Option<Seq<char>> {
    match field(t, name, k) {
        Some(Tree::Text(s)) => Some(s),
        _ => None,
    }
}

fn text_of_field(v: &serde_json::Value, name: &str, k: usize) -> (r: Option<String>)
    ensures
        opt_view(r) == text_in(tree_of(*v), name@, k as int),
{
    match get_field(v, name, k) {
        Some(x) => match as_text(x) {
            Some(s) => Some(s.to_owned()),
            None => None,
        },
        None => None,
    }
}

/// What a cache file holds: when the check was made, and what it found. None
/// where the file is not in order.
pub open spec fn cache_in(data: Seq<u8>) -> Option<(Seq<char>, Seq<char>)> {
    match json_parsed(data) {
        Some(t) => if is_record(t, 2) {
            match (text_in(t, "checked_at"@, 0), text_in(t, "latest_version"@, 1)) {
                (Some(at), Some(latest)) => Some((at, latest)),
                _ => None,
            }
        } else {
            None
        },
        None => None,
    }
}

/// Reads a cache file.
pub fn read_cache(data: &[u8]) -> (r: Option<UpdateCheckCache>)
    ensures
        match r {
            Some(c) => cache_in(data@) == Some((c.checked_at@, c.latest_version@)),
            None => cache_in(data@) is None,
        },
{
    let v = match parse_json(data) {
        Ok(v) => v,
        Err(_) => return None,
    };
    if !stands_for_record(&v, 2) {
        return None;
    }
    match (text_of_field(&v, "checked_at", 0), text_of_field(&v, "latest_version", 1)) {
        (Some(checked_at), Some(latest_version)) => Some(
            UpdateCheckCache { checked_at, latest_version },
        ),
        _ => None,
    }
}

/// A cache file as JSON.
pub open spec fn cache_tree(c: UpdateCheckCache) -> Tree {
    Tree::Object(
        seq![
            ("checked_at"@, Tree::Text(c.checked_at@)),
            ("latest_version"@, Tree::Text(c.latest_version@)),
        ],
    )
}

proof fn lemma_cache_tree(c: UpdateCheckCache)
    ensures
        distinct(cache_tree(c)->Object_0),
        plain(cache_tree(c), 100),
        text_in(cache_tree(c), "checked_at"@, 0) == Some(c.checked_at@),
        text_in(cache_tree(c), "latest_version"@, 1) == Some(c.latest_version@),
{
    reveal_strlit("checked_at");
    reveal_strlit("latest_version");
    reveal_with_fuel(plain, 2);
    reveal_with_fuel(member, 3);
    let ms = cache_tree(c)->Object_0;
    assert(ms[0].0.len() != ms[1].0.len());
    assert(ms.skip(1)[0] == ms[1]);
}

/// Writes a cache file. Reading it gives the same back.
pub fn write_cache(c: &UpdateCheckCache) -> (r: String)
    ensures
        r@ == json_text(cache_tree(*c)),
        cache_in(encode_utf8(r@)) == Some((c.checked_at@, c.latest_version@)),
{
    let mut ms: Vec<(String, serde_json::Value)> = Vec::new();
    put(&mut ms, "checked_at", text_value(&c.checked_at));
    put(&mut ms, "latest_version", text_value(&c.latest_version));
    proof {
        lemma_cache_tree(*c);
        assert(members(ms@) =~= cache_tree(*c)->Object_0);
    }
    print_json(&object_value(ms))
}

// ---------- the latest release ----------

/// The tag that the answer on the latest release names.
pub open spec fn tag_in(body: Seq<char>) -> Option<Seq<char>> {
    match json_parsed(encode_utf8(body)) {
        Some(t) => text_at(t, "tag_name"@),
        None => None,
    }
}

/// The address may be asked: any, unless HTTPS is demanded.
pub fn url_allowed(url: &str, enforce_https: bool) -> (r: bool)
    ensures
        r == (!enforce_https || begins(url@, "https://"@)),
{
    !enforce_https || begins_with(url, "https://")
}

/// The version of the latest release, by what the address answered; none where
/// the address may not be asked or gave no answer.
pub fn check_latest(url: &str, enforce_https: bool, body: Option<&str>) -> (r: Option<String>)
    ensures
        opt_view(r) == if enforce_https && !begins(url@, "https://"@) {
            None
        } else {
            match body {
                None => None,
                Some(text) => tag_in(text@),
            }
        },
{
    if !url_allowed(url, enforce_https) {
        return None;
    }
    match body {
        None => None,
        Some(text) => match parse_json(text.as_bytes()) {
            Ok(v) => text_under(&v, "tag_name"),
            Err(_) => None,
        },
    }
}

// ---------- laws ----------

/// The order of versions is a strict order in which any two different versions
/// compare.
pub proof fn law_version_order(a: VersionView, b: VersionView, c: VersionView)
    ensures
        !version_less(a, a),
        !(version_less(a, b) && version_less(b, a)),
        a != b ==> version_less(a, b) || version_less(b, a),
        version_less(a, b) && version_less(b, c) ==> version_less(a, c),
{
    if let Some(x) = a.prerelease {
        lemma_text_order(x, x, x);
        if let Some(y) = b.prerelease {
            lemma_text_order(x, y, x);
            if let Some(z) = c.prerelease {
                lemma_text_order(x, y, z);
            }
        }
    }
}

/// A version in words: its numbers with dots between them, and a hyphen
/// before the prerelease.
pub open spec fn version_text(v: VersionView) -> Seq<char> {
    decimal(v.major as nat) + seq!['.'] + decimal(v.minor as nat) + seq!['.'] + decimal(
        v.patch as nat,
    ) + match v.prerelease {
        Some(p) => seq!['-'] + p,
        None => seq![],
    }
}

/// The text of a version is read as that version. A `v` before it and
/// whitespace around it change nothing.
pub proof fn law_version_text_is_read_back(
    v: VersionView,
    before: Seq<char>,
    after: Seq<char>,
)
    requires
        v.prerelease matches Some(p) ==> trimmed(p) == p,
        all_space(before),
        all_space(after),
    ensures
        version_of(version_text(v)) == Some(v),
        version_of(seq!['v'] + version_text(v)) == Some(v),
        version_of(before + version_text(v) + after) == Some(v),
        version_of(before + (seq!['v'] + version_text(v)) + after) == Some(v),
{
    let a = decimal(v.major as nat);
    let b = decimal(v.minor as nat);
    let c = decimal(v.patch as nat);
    let core = a + seq!['.'] + b + seq!['.'] + c;
    let t = version_text(v);
    let vt = seq!['v'] + t;
    lemma_decimal_value(v.major as nat);
    lemma_decimal_value(v.minor as nat);
    lemma_decimal_value(v.patch as nat);
    assert(t[0] == a[0]);
    assert forall|j: int| 0 <= j < core.len() implies core[j] != '-' && t[j] == core[j] by {}
    if let Some(p) = v.prerelease {
        assert(t =~= core + (seq!['-'] + p));
        assert(t[core.len() as int] == '-');
        lemma_first_of_unique(t, '-', core.len() as int);
        assert(t.take(core.len() as int) =~= core);
        assert(t.skip(core.len() as int + 1) =~= p);
        if p.len() > 0 {
            lemma_trimmed_ends(p);
            assert(t.last() == p.last());
        } else {
            assert(t.last() == '-');
        }
    } else {
        assert(t =~= core);
        lemma_first_of_unique(t, '-', core.len() as int);
        assert(t.take(core.len() as int) =~= core);
        assert(t.last() == c.last());
    }
    assert(core =~= a.push('.') + (b.push('.') + c));
    lemma_split_first(a, b.push('.') + c, '.');
    lemma_split_first(b, c, '.');
    lemma_split_none(c, '.');
    let ps = split(core, '.');
    assert(ps =~= seq![a, b, c]);
    assert(without_v(t) == t);
    assert(vt[0] == 'v');
    assert(vt.skip(1) =~= t);
    assert(without_v(vt) == t);
    assert(vt.last() == t.last());
    let none = Seq::<char>::empty();
    lemma_trim_around(none, t, none);
    lemma_trim_around(none, vt, none);
    assert(none + t + none =~= t);
    assert(none + vt + none =~= vt);
    lemma_trim_around(before, t, after);
    lemma_trim_around(before, vt, after);
}

proof fn lemma_trimmed_ends(p: Seq<char>)
    requires
        trimmed(p) == p,
        p.len() > 0,
    ensures
        !is_space(p[0]),
        !is_space(p.last()),
{
    lemma_trim_lengths(p);
    lemma_trim_lengths(p.skip(1));
    lemma_trim_lengths(p.drop_last());
    lemma_trim_lengths(trimmed_start(p));
    if is_space(p[0]) {
        assert(trimmed_start(p) == trimmed_start(p.skip(1)));
    } else if is_space(p.last()) {
        assert(trimmed_start(p) == p);
        assert(trimmed_end(p) == trimmed_end(p.drop_last()));
    }
}

proof fn lemma_trim_lengths(p: Seq<char>)
    ensures
        trimmed_start(p).len() <= p.len(),
        trimmed_end(p).len() <= p.len(),
    decreases p.len(),
{
    if p.len() > 0 {
        lemma_trim_lengths(p.skip(1));
        lemma_trim_lengths(p.drop_last());
    }
}

/// A release comes after each of its prereleases.
pub proof fn law_release_after_prerelease(v: VersionView, name: Seq<char>)
    requires
        v.prerelease is None,
    ensures
        version_less(VersionView { prerelease: Some(name), ..v }, v),
{
}

/// A check that is not out of date tells of an update; with no update to tell
/// of, a check is out of date.
pub proof fn law_fresh_cache_means_update(
    cache: Option<UpdateCheckCache>,
    now: Timestamp,
    current: Seq<char>,
)
    ensures
        !stale(cache, now, current) ==> cache is Some && newer(
            cache->0.latest_version@,
            current,
        ),
{
}

/// A version is older where its first number that differs is smaller; with the
/// same numbers a prerelease is older than the release, and two prereleases
/// compare by their text.
pub proof fn law_smaller_number_is_older(a: VersionView, b: VersionView)
    ensures
        a.major < b.major ==> version_less(a, b),
        a.major == b.major && a.minor < b.minor ==> version_less(a, b),
        a.major == b.major && a.minor == b.minor && a.patch < b.patch ==> version_less(a, b),
        a.major == b.major && a.minor == b.minor && a.patch == b.patch ==> (version_less(a, b)
            <==> a.prerelease is Some && (b.prerelease matches Some(y) ==> text_less(
            a.prerelease->0,
            y,
        ))),
{
}

/// An update is told of exactly if both texts are versions and the one that was
/// found is the later one.
pub proof fn law_newer_exactly(latest: Seq<char>, current: Seq<char>)
    ensures
        newer(latest, current) ==> version_of(latest) is Some && version_of(current) is Some,
        version_of(latest) is Some && version_of(current) is Some ==> (newer(latest, current)
            <==> version_less(version_of(current)->0, version_of(latest)->0)),
        !newer(current, current),
        newer(latest, current) ==> !newer(current, latest),
{
    if version_of(latest) is Some && version_of(current) is Some {
        let l = version_of(latest)->0;
        let c = version_of(current)->0;
        law_version_order(l, c, l);
    }
    if version_of(current) is Some {
        law_version_order(version_of(current)->0, version_of(current)->0, version_of(current)->0);
    }
}

/// The result of a check is out of date exactly if there is none, it was made
/// longer ago than it lasts, or what it found is no newer than the current
/// version.
pub proof fn law_stale_exactly(c: UpdateCheckCache, now: Timestamp, current: Seq<char>)
    ensures
        stale(None, now, current),
        !newer(c.latest_version@, current) ==> stale(Some(c), now, current),
        newer(c.latest_version@, current) && rfc3339_instant(c.checked_at@) is None ==> !stale(
            Some(c),
            now,
            current,
        ),
        newer(c.latest_version@, current) ==> (rfc3339_instant(c.checked_at@) matches Some(at) ==> (
        stale(Some(c), now, current) <==> longer_ago(
            now,
            Timestamp { secs: at.0, nanos: at.1 },
            CACHE_TTL_SECS,
        ))),
{
}

/// A version has three numbers: a text whose part before the first hyphen has
/// fewer, or has something else in their places, is none.
pub proof fn law_version_needs_three_numbers(s: Seq<char>)
    ensures
        version_of(s) matches Some(v) ==> {
            let t = without_v(trimmed(s));
            let ps = split(t.take(first_of(t, '-')), '.');
            &&& ps.len() >= 3
            &&& natural(ps[0]) == Some(v.major as nat)
            &&& natural(ps[1]) == Some(v.minor as nat)
            &&& natural(ps[2]) == Some(v.patch as nat)
            &&& v.prerelease is Some <==> first_of(t, '-') < t.len()
            &&& v.prerelease matches Some(p) ==> p == t.skip(first_of(t, '-') + 1)
        },
{
}

/// The tag of a release is the text under its key; an answer without it, or with
/// something else there, names none.
pub proof fn law_tag_is_the_text_under_its_key(body: Seq<char>, tag: Seq<char>)
    ensures
        tag_in(body) == Some(tag) <==> (json_parsed(encode_utf8(body)) matches Some(Tree::Object(ms))
            && member(ms, "tag_name"@) == Some(Tree::Text(tag))),
{
}

/// A cache file is in order exactly if it is a record of two texts: when the
/// check was made, and what it found.
pub proof fn law_cache_is_two_texts(data: Seq<u8>, at: Seq<char>, latest: Seq<char>)
    ensures
        cache_in(data) == Some((at, latest)) <==> (json_parsed(data) matches Some(t) && is_record(t, 2)
            && field(t, "checked_at"@, 0) == Some(Tree::Text(at)) && field(t, "latest_version"@, 1)
            == Some(Tree::Text(latest))),
{
}

/// All the letters `v` at the start of a version are left out, and nothing else
/// is.
pub proof fn law_leading_v_is_left_out(s: Seq<char>)
    ensures
        without_v(seq!['v'] + s) == without_v(s),
        s.len() == 0 || s[0] != 'v' ==> without_v(s) == s,
{
    assert((seq!['v'] + s).skip(1) =~= s);
}

} // verus!
