//! Instants in UTC and spans of time, as plain numbers.

use vstd::prelude::*;
use vstd::string::*;

verus! {

/// An instant: whole seconds since the Unix epoch and the nanoseconds that
/// follow them.
#[derive(Clone, Copy, Debug, PartialEq, Eq, Structural)]
pub struct Timestamp {
    pub secs: i64,
    pub nanos: u32,
}

/// The first representable second, at the start of the year -262143.
pub const MIN_SECS: i64 = -8_334_601_228_800;

/// The last representable second, at the end of the year 262142.
pub const MAX_SECS: i64 = 8_210_266_876_799;

/// Nanoseconds in a second.
pub const NANOS: u32 = 1_000_000_000;

/// The first second of the year 0.
pub const YEAR_ZERO_SECS: i64 = -62_167_219_200;

/// The first second of the year 1.
pub const YEAR_ONE_SECS: i64 = -62_135_596_800;

/// The last second of the year 9999.
pub const YEAR_9999_SECS: i64 = 253_402_300_799;

/// The zero sentinel of timestamps: a field that holds it counts as absent.
pub open spec fn zero_time() -> Timestamp {
    Timestamp { secs: 0, nanos: 0 }
}

/// A span of time.
#[derive(Clone, Copy, Debug, PartialEq, Eq, Structural)]
pub struct Span {
    pub secs: u64,
    pub nanos: u32,
}

impl Span {
    /// The span is written with less than a second of nanoseconds.
    pub open spec fn wf(self) -> bool {
        self.nanos < NANOS
    }

    /// The length in nanoseconds.
    pub open spec fn value(self) -> int {
        self.secs * NANOS + self.nanos
    }

    /// A span of whole seconds.
    pub fn from_secs(secs: u64) -> (r: Span)
        ensures
            r == (Span { secs, nanos: 0 }),
            r.wf(),
    {
        Span { secs, nanos: 0 }
    }
}

impl Timestamp {
    /// The instant is representable. Nanoseconds beyond one second stand for
    /// a leap second, which only the last second of a minute can have.
    pub open spec fn wf(self) -> bool {
        &&& MIN_SECS <= self.secs <= MAX_SECS
        &&& self.nanos < NANOS || (self.nanos < 2 * NANOS && self.secs % 60 == 59)
    }

    /// The instant in nanoseconds since the epoch.
    pub open spec fn value(self) -> int {
        self.secs * NANOS + self.nanos
    }

    /// `self` is not before `other`.
    pub open spec fn at_or_after(self, other: Timestamp) -> bool {
        self.secs > other.secs || (self.secs == other.secs && self.nanos >= other.nanos)
    }

    /// The year is written with four digits.
    pub open spec fn in_four_digit_years(self) -> bool {
        YEAR_ZERO_SECS <= self.secs <= YEAR_9999_SECS
    }

    /// Whether `self` is not before `other`.
    pub fn not_before(self, other: Timestamp) -> (r: bool)
        ensures
            r == self.at_or_after(other),
    {
        self.secs > other.secs || (self.secs == other.secs && self.nanos >= other.nanos)
    }

    /// The current instant.
    pub fn now() -> (r: Timestamp)
        ensures
            r.wf(),
            r.secs >= 0,
            r.nanos < NANOS,
    {
        utc_now()
    }

    /// The zero sentinel.
    pub fn zero() -> (r: Timestamp)
        ensures
            r == zero_time(),
    {
        Timestamp { secs: 0, nanos: 0 }
    }

    /// Whether this is the zero sentinel.
    pub fn is_zero(self) -> (r: bool)
        ensures
            r == (self == zero_time()),
    {
        self.secs == 0 && self.nanos == 0
    }

    /// The instant `span` later, where it is representable.
    pub fn plus(self, span: Span) -> (r: Option<Timestamp>)
        requires
            self.wf(),
            self.nanos < NANOS,
            span.wf(),
        ensures
            match r {
                Some(t) => t.wf() && t.nanos < NANOS && t.value() == self.value() + span.value(),
                None => self.value() + span.value() >= (MAX_SECS + 1) * NANOS,
            },
    {
        if span.secs > (MAX_SECS as u64) * 3 {
            return None;
        }
        checked_add(self, span.secs as i64, span.nanos)
    }
}

/// `chrono::Utc::now`: the current instant by the system clock, which is not
/// before the epoch and inside no leap second.
#[verifier::external_body]
fn utc_now() -> (t: Timestamp)
    ensures
        t.wf(),
        t.secs >= 0,
        t.nanos < NANOS,
{
    let now = chrono::Utc::now();
    Timestamp { secs: now.timestamp(), nanos: now.timestamp_subsec_nanos() }
}

/// `chrono::DateTime::checked_add_signed`: outside leap seconds, the sum is
/// exact, and missing only where it lies after the last representable second.
#[verifier::external_body]
fn checked_add(t: Timestamp, secs: i64, nanos: u32) -> (r: Option<Timestamp>)
    requires
        t.wf(),
        t.nanos < NANOS,
        0 <= secs <= 3 * MAX_SECS,
        nanos < NANOS,
    ensures
        match r {
            Some(u) => u.wf() && u.nanos < NANOS && u.value() == t.value() + secs * NANOS + nanos,
            None => t.value() + secs * NANOS + nanos >= (MAX_SECS + 1) * NANOS,
        },
{
    let at = chrono::DateTime::<chrono::Utc>::from_timestamp(t.secs, t.nanos)?;
    let sum = at.checked_add_signed(chrono::TimeDelta::new(secs, nanos)?)?;
    Some(Timestamp { secs: sum.timestamp(), nanos: sum.timestamp_subsec_nanos() })
}

/// What `chrono::DateTime::to_rfc3339_opts` writes for an instant in UTC, with
/// `Z` for the offset, and with nine digits of fraction or with none.
pub uninterp spec fn rfc3339_opts_text(secs: i64, nanos: u32, fraction: bool) -> Seq<char>;

/// What `chrono::DateTime::to_rfc3339` writes for an instant in UTC.
pub uninterp spec fn rfc3339_text(secs: i64, nanos: u32) -> Seq<char>;

/// The instant that `chrono::DateTime::parse_from_rfc3339` reads, moved to
/// UTC; none where it reports an error.
pub uninterp spec fn rfc3339_instant(s: Seq<char>) -> Option<(i64, u32)>;

/// `chrono::DateTime::to_rfc3339_opts`. A text that keeps the whole instant is
/// read back as that instant by `parse_from_rfc3339`, which takes years of
/// four digits.
#[verifier::external_body]
fn write_rfc3339_opts(t: Timestamp, fraction: bool) -> (r: String)
    requires
        t.wf(),
    ensures
        r@ == rfc3339_opts_text(t.secs, t.nanos, fraction),
        t.in_four_digit_years() && (fraction || t.nanos == 0) ==> rfc3339_instant(r@) == Some(
            (t.secs, t.nanos),
        ),
{
    let at = chrono::DateTime::<chrono::Utc>::from_timestamp(t.secs, t.nanos).unwrap();
    let form = match fraction {
        true => chrono::SecondsFormat::Nanos,
        false => chrono::SecondsFormat::Secs,
    };
    at.to_rfc3339_opts(form, true)
}

/// `chrono::DateTime::to_rfc3339`: the text keeps the whole instant and is
/// read back by `parse_from_rfc3339`, which takes years of four digits.
#[verifier::external_body]
fn write_rfc3339(t: Timestamp) -> (r: String)
    requires
        t.wf(),
    ensures
        r@ == rfc3339_text(t.secs, t.nanos),
        t.in_four_digit_years() ==> rfc3339_instant(r@) == Some((t.secs, t.nanos)),
{
    chrono::DateTime::<chrono::Utc>::from_timestamp(t.secs, t.nanos).unwrap().to_rfc3339()
}

/// `chrono::DateTime::parse_from_rfc3339` and `with_timezone`. What is read is
/// representable.
#[verifier::external_body]
fn read_rfc3339(s: &str) -> (r: Option<Timestamp>)
    ensures
        match r {
            Some(t) => t.wf() && rfc3339_instant(s@) == Some((t.secs, t.nanos)),
            None => rfc3339_instant(s@) is None,
        },
{
    let at = chrono::DateTime::parse_from_rfc3339(s).ok()?.with_timezone(&chrono::Utc);
    Some(Timestamp { secs: at.timestamp(), nanos: at.timestamp_subsec_nanos() })
}

/// The span that `chrono::DateTime::signed_duration_since` finds between two
/// instants: whole seconds, and the nanoseconds that remain, both with the
/// sign of the span.
pub uninterp spec fn elapsed_between(
    secs: i64,
    nanos: u32,
    since_secs: i64,
    since_nanos: u32,
) -> (i64, i32);

/// `chrono::DateTime::signed_duration_since`, by `num_seconds` and
/// `subsec_nanos`. Outside leap seconds the span is the difference.
#[verifier::external_body]
fn signed_duration(t: Timestamp, since: Timestamp) -> (r: (i64, i32))
    requires
        t.wf(),
        since.wf(),
    ensures
        r == elapsed_between(t.secs, t.nanos, since.secs, since.nanos),
        -NANOS < r.1 < NANOS,
        r.0 > 0 ==> r.1 >= 0,
        r.0 < 0 ==> r.1 <= 0,
        t.nanos < NANOS && since.nanos < NANOS ==> r.0 * NANOS + r.1 == t.value() - since.value(),
{
    let at = chrono::DateTime::<chrono::Utc>::from_timestamp(t.secs, t.nanos).unwrap();
    let from = chrono::DateTime::<chrono::Utc>::from_timestamp(since.secs, since.nanos).unwrap();
    let d = at.signed_duration_since(from);
    (d.num_seconds(), d.subsec_nanos())
}

/// More than `limit` seconds lie between the instants.
pub open spec fn longer_ago(now: Timestamp, since: Timestamp, limit: u64) -> bool {
    let d = elapsed_between(now.secs, now.nanos, since.secs, since.nanos);
    d.0 > limit || (d.0 == limit && d.1 > 0)
}

/// Whether more than `limit` seconds passed since an instant.
pub fn is_longer_ago(now: Timestamp, since: Timestamp, limit: u64) -> (r: bool)
    requires
        now.wf(),
        since.wf(),
        limit <= i64::MAX,
    ensures
        r == longer_ago(now, since, limit),
        now.nanos < NANOS && since.nanos < NANOS ==> r == (now.value() - since.value() > limit
            * NANOS),
{
    let d: (i64, i32) = signed_duration(now, since);
    d.0 > limit as i64 || (d.0 == limit as i64 && d.1 > 0)
}

/// What `{}` writes for a `chrono::DateTime<chrono::Utc>`.
pub uninterp spec fn display_text(secs: i64, nanos: u32) -> Seq<char>;

/// `<chrono::DateTime<chrono::Utc> as core::fmt::Display>::fmt`.
#[verifier::external_body]
pub(crate) fn display(t: Timestamp) -> (r: String)
    requires
        t.wf(),
    ensures
        r@ == display_text(t.secs, t.nanos),
{
    chrono::DateTime::<chrono::Utc>::from_timestamp(t.secs, t.nanos).unwrap().to_string()
}

/// The text of an instant in the state file: no fraction where it has none,
/// nine digits of it otherwise.
pub open spec fn nano_text(t: Timestamp) -> Seq<char> {
    rfc3339_opts_text(t.secs, t.nanos, t.nanos != 0)
}

/// The instant that a text of the state file stands for. The first instant of
/// the year 1 stands for the zero sentinel.
pub open spec fn nano_instant(s: Seq<char>) -> Option<Timestamp> {
    match rfc3339_instant(s) {
        Some((secs, nanos)) => Some(normal_instant(Timestamp { secs, nanos })),
        None => None,
    }
}

/// The first instant of the year 1, the zero time of other writers of the
/// state file, taken as the zero sentinel.
pub open spec fn normal_instant(t: Timestamp) -> Timestamp {
    if t.secs == YEAR_ONE_SECS && t.nanos == 0 {
        zero_time()
    } else {
        t
    }
}

/// Whether this is the first instant of the year 1.
fn is_year_one_zero(t: Timestamp) -> (r: bool)
    ensures
        r == (t.secs == YEAR_ONE_SECS && t.nanos == 0),
{
    t.secs == YEAR_ONE_SECS && t.nanos == 0
}

/// Writes an instant for the state file. Reading the text gives the instant
/// back, unless it is the first of the year 1.
pub fn serialize(t: Timestamp) -> (r: String)
    requires
        t.wf(),
    ensures
        r@ == nano_text(t),
        t.in_four_digit_years() ==> nano_instant(r@) == Some(normal_instant(t)),
{
    write_rfc3339_opts(t, t.nanos != 0)
}

/// Reads an instant of the state file.
pub fn deserialize(s: &str) -> (r: Option<Timestamp>)
    ensures
        r == nano_instant(s@),
        r matches Some(t) ==> t.wf(),
{
    match read_rfc3339(s) {
        Some(t) => if is_year_one_zero(t) {
            Some(Timestamp::zero())
        } else {
            Some(t)
        },
        None => None,
    }
}

/// Writes an instant with a numeric offset and as many digits of fraction as
/// it needs.
pub fn rfc3339(t: Timestamp) -> (r: String)
    requires
        t.wf(),
    ensures
        r@ == rfc3339_text(t.secs, t.nanos),
        t.in_four_digit_years() ==> rfc3339_instant(r@) == Some((t.secs, t.nanos)),
{
    write_rfc3339(t)
}

/// Reads an instant in RFC 3339 form.
pub fn parse_rfc3339(s: &str) -> (r: Option<Timestamp>)
    ensures
        match r {
            Some(t) => t.wf() && rfc3339_instant(s@) == Some((t.secs, t.nanos)),
            None => rfc3339_instant(s@) is None,
        },
{
    read_rfc3339(s)
}

/// One instant is at or after another exactly if it is no smaller in
/// nanoseconds, leap seconds aside; of two instants one is at or after the
/// other.
pub proof fn law_instants_are_ordered_by_value(a: Timestamp, b: Timestamp)
    ensures
        a.nanos < NANOS && b.nanos < NANOS ==> (a.at_or_after(b) <==> a.secs * 1_000_000_000
            + a.nanos >= b.secs * 1_000_000_000 + b.nanos),
        a.at_or_after(b) || b.at_or_after(a),
        a.at_or_after(b) && b.at_or_after(a) ==> a == b,
        a.at_or_after(a),
{
}

/// Only the first instant of the year 1 is taken for another, and it is taken
/// for the zero sentinel.
pub proof fn law_only_year_one_is_normalized(t: Timestamp)
    ensures
        normal_instant(t) != t ==> t.secs == YEAR_ONE_SECS && t.nanos == 0 && normal_instant(t)
            == (Timestamp { secs: 0, nanos: 0 }),
        normal_instant(Timestamp { secs: YEAR_ONE_SECS, nanos: 0 }) == (Timestamp {
            secs: 0,
            nanos: 0,
        }),
{
}

} // verus!
