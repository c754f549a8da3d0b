//! Instants of UTC, as whole seconds and nanoseconds since the Unix epoch.

use chrono::TimeZone;
use vstd::prelude::*;

verus! {

/// An instant of UTC. A leap second counts its nanoseconds on beyond one second.
#[derive(Clone, Copy, PartialEq, Eq, Structural, Debug)]
pub struct Timestamp {
    pub secs: i64,
    pub nanos: u32,
}

/// The first and the last millisecond that have an instant.
pub const MIN_MILLIS: i64 = -8_334_601_228_800_000;

pub const MAX_MILLIS: i64 = 8_210_266_876_799_999;

/// The instants that a calendar date can name.
pub open spec fn in_calendar(t: Timestamp) -> bool {
    &&& MIN_MILLIS <= t.secs * 1000
    &&& t.secs * 1000 <= MAX_MILLIS
    &&& t.nanos < 2_000_000_000
}

impl Timestamp {
    /// Whether this instant comes no later than `other`.
    pub open spec fn spec_le(self, other: Timestamp) -> bool {
        self.secs < other.secs || (self.secs == other.secs && self.nanos <= other.nanos)
    }

    /// Whether this instant comes no later than `other`.
    #[verifier::when_used_as_spec(spec_le)]
    pub fn le(self, other: Timestamp) -> (r: bool)
        ensures
            r == self.spec_le(other),
    {
        self.secs < other.secs || (self.secs == other.secs && self.nanos <= other.nanos)
    }

    /// Whether this instant comes before `other`.
    pub open spec fn spec_before(self, other: Timestamp) -> bool {
        !other.spec_le(self)
    }

    /// Whether this instant comes before `other`.
    #[verifier::when_used_as_spec(spec_before)]
    pub fn before(self, other: Timestamp) -> (r: bool)
        ensures
            r == self.spec_before(other),
    {
        !other.le(self)
    }


    /// Whole milliseconds since the epoch.
    pub open spec fn spec_millis(self) -> int {
        self.secs * 1000 + self.nanos / 1_000_000
    }

    /// Whole milliseconds since the epoch.
    pub fn millis(self) -> (r: i64)
        requires
            in_calendar(self),
        ensures
            r == self.spec_millis(),
    {
        self.secs * 1000 + (self.nanos / 1_000_000) as i64
    }
}

/// The order of instants is reflexive, total, transitive, and tells any two apart.
pub proof fn instants_are_totally_ordered(a: Timestamp, b: Timestamp, c: Timestamp)
    ensures
        a.le(a),
        a.le(b) || b.le(a),
        a.le(b) && b.le(a) ==> a == b,
        a.le(b) && b.le(c) ==> a.le(c),
{
}

/// The instant a number of milliseconds after the epoch.
pub open spec fn instant_of_millis(ms: int) -> Timestamp {
    Timestamp { secs: (ms / 1000) as i64, nanos: ((ms % 1000) * 1_000_000) as u32 }
}

/// Whether a number of milliseconds since the epoch has an instant.
pub open spec fn millis_in_calendar(ms: int) -> bool {
    MIN_MILLIS <= ms <= MAX_MILLIS
}

/// An instant made from milliseconds gives those milliseconds back.
pub proof fn millis_round_trip(ms: int)
    requires
        millis_in_calendar(ms),
    ensures
        in_calendar(instant_of_millis(ms)),
        instant_of_millis(ms).spec_millis() == ms,
{
    let t = instant_of_millis(ms);
    assert(-8_334_601_228_800 <= ms / 1000 <= 8_210_266_876_799);
    assert(t.secs == ms / 1000);
    assert(t.nanos == (ms % 1000) * 1_000_000);
    assert(t.nanos / 1_000_000 == ms % 1000) by {
        vstd::arithmetic::div_mod::lemma_div_by_multiple(ms % 1000, 1_000_000);
    }
}

/// `Utc.timestamp_millis_opt` gives the instant that many milliseconds after the
/// epoch: the floor of the division by 1000 as seconds, the rest as nanoseconds.
/// It gives one exactly for the years -262143 to 262142.
#[verifier::external_body]
pub(crate) fn timestamp_millis_opt(ms: i64) -> (r: Option<Timestamp>)
    ensures
        r == (if millis_in_calendar(ms as int) {
            Some(instant_of_millis(ms as int))
        } else {
            None
        }),
{
    chrono::Utc.timestamp_millis_opt(ms).single().map(
        |t| Timestamp { secs: t.timestamp(), nanos: t.timestamp_subsec_nanos() },
    )
}

/// The instant that `DateTime::parse_from_rfc3339` reads from a text.
pub uninterp spec fn rfc3339_instant(text: Seq<char>) -> Option<Timestamp>;

/// `DateTime::parse_from_rfc3339` reads a date and time with an offset, which is
/// taken here in UTC. What it reads, and whether it does, depends on the text
/// alone. The instant lies within the calendar.
#[verifier::external_body]
pub(crate) fn parse_rfc3339(text: &str) -> (r: Option<Timestamp>)
    ensures
        r == rfc3339_instant(text@),
        r matches Some(t) ==> in_calendar(t),
{
    chrono::DateTime::parse_from_rfc3339(text).ok().map(
        |t| Timestamp { secs: t.timestamp(), nanos: t.timestamp_subsec_nanos() },
    )
}

/// `Utc::now` reads the clock. Nothing is known of the instant but that it lies
/// within the calendar and is no leap second.
#[verifier::external_body]
pub(crate) fn utc_now() -> (r: Timestamp)
    ensures
        in_calendar(r),
        r.nanos < 1_000_000_000,
{
    let t = chrono::Utc::now();
    Timestamp { secs: t.timestamp(), nanos: t.timestamp_subsec_nanos() }
}

/// Whether an instant can stand in a calendar: only the last second of a minute
/// can be a leap second.
pub open spec fn is_instant(t: Timestamp) -> bool {
    in_calendar(t) && (t.nanos < 1_000_000_000 || t.secs % 60 == 59)
}

/// The seconds of the instant `k` whole seconds off. From a leap second, which
/// itself counts as a second, one goes to ordinary seconds.
pub open spec fn shifted_secs(t: Timestamp, k: int) -> int {
    if t.nanos >= 1_000_000_000 && k < 0 {
        t.secs + 1 + k
    } else {
        t.secs + k
    }
}

/// The nanoseconds of the instant some whole seconds off.
pub open spec fn shifted_nanos(t: Timestamp, k: int) -> int {
    if t.nanos >= 1_000_000_000 && k != 0 {
        t.nanos - 1_000_000_000
    } else {
        t.nanos as int
    }
}

/// The instant `k` whole seconds off, where the calendar has it.
pub open spec fn shifted(t: Timestamp, k: int) -> Option<Timestamp> {
    if MIN_MILLIS <= shifted_secs(t, k) * 1000 <= MAX_MILLIS {
        Some(Timestamp { secs: shifted_secs(t, k) as i64, nanos: shifted_nanos(t, k) as u32 })
    } else {
        None
    }
}

/// The instant `k` whole seconds off, where the calendar has it.
pub fn shift(t: Timestamp, k: i64) -> (r: Option<Timestamp>)
    ensures
        r == shifted(t, k as int),
{
    let leap = t.nanos >= 1_000_000_000;
    let secs: i128 = t.secs as i128 + k as i128 + (if leap && k < 0 {
        1i128
    } else {
        0i128
    });
    let nanos: u32 = if leap && k != 0 {
        t.nanos - 1_000_000_000
    } else {
        t.nanos
    };
    if MIN_MILLIS as i128 <= secs * 1000 && secs * 1000 <= MAX_MILLIS as i128 {
        Some(Timestamp { secs: secs as i64, nanos })
    } else {
        None
    }
}

/// The leap second that counts between two instants: one that lies between their
/// times of day.
pub open spec fn leap_between(a: Timestamp, b: Timestamp) -> int {
    if a.secs % 86_400 > b.secs % 86_400 && b.nanos >= 1_000_000_000 {
        1
    } else if a.secs % 86_400 < b.secs % 86_400 && a.nanos >= 1_000_000_000 {
        -1
    } else {
        0
    }
}

/// The nanoseconds from `b` to `a`.
pub open spec fn elapsed(a: Timestamp, b: Timestamp) -> int {
    (a.secs - b.secs + leap_between(a, b)) * 1_000_000_000 + a.nanos - b.nanos
}

fn second_of_day(secs: i64) -> (r: i64)
    ensures
        r == secs % 86_400,
        0 <= r < 86_400,
{
    let later: u128 = (secs as i128 + 86_400 * 110_000_000_000_000) as u128;
    proof {
        vstd::arithmetic::div_mod::lemma_mod_multiples_vanish(
            110_000_000_000_000,
            secs as int,
            86_400,
        );
    }
    (later % 86_400) as i64
}

/// The nanoseconds from `b` to `a`.
pub fn nanos_between(a: Timestamp, b: Timestamp) -> (r: i128)
    ensures
        r == elapsed(a, b),
{
    let x: i64 = second_of_day(a.secs);
    let y: i64 = second_of_day(b.secs);
    let leap: i128 = if x > y && b.nanos >= 1_000_000_000 {
        1
    } else if x < y && a.nanos >= 1_000_000_000 {
        -1
    } else {
        0
    };
    (a.secs as i128 - b.secs as i128 + leap) * 1_000_000_000 + a.nanos as i128 - b.nanos as i128
}

/// The instant that `DateTime::parse_from_str` reads from a text in a format.
pub uninterp spec fn instant_in(text: Seq<char>, format: Seq<char>) -> Option<Timestamp>;

/// `DateTime::parse_from_str` reads a date and time with an offset as a format
/// says, which is taken here in UTC. What it reads, and whether it does, depends
/// on the text and the format alone. The instant lies within the calendar.
#[verifier::external_body]
pub(crate) fn parse_instant(text: &str, format: &str) -> (r: Option<Timestamp>)
    ensures
        r == instant_in(text@, format@),
        r matches Some(t) ==> is_instant(t),
{
    chrono::DateTime::parse_from_str(text, format).ok().map(
        |t| Timestamp { secs: t.timestamp(), nanos: t.timestamp_subsec_nanos() },
    )
}

/// The instant of UTC that `NaiveDateTime::parse_from_str` reads from a text in a
/// format.
pub uninterp spec fn naive_instant_in(text: Seq<char>, format: Seq<char>) -> Option<Timestamp>;

/// `NaiveDateTime::parse_from_str` reads a date and time without an offset as a
/// format says, which is taken here as UTC. What it reads, and whether it does,
/// depends on the text and the format alone. The instant lies within the calendar.
#[verifier::external_body]
pub(crate) fn parse_naive_instant(text: &str, format: &str) -> (r: Option<Timestamp>)
    ensures
        r == naive_instant_in(text@, format@),
        r matches Some(t) ==> is_instant(t),
{
    chrono::NaiveDateTime::parse_from_str(text, format).ok().map(
        |n| Timestamp { secs: n.and_utc().timestamp(), nanos: n.and_utc().timestamp_subsec_nanos() },
    )
}

/// An instant as `DateTime::format` writes its date and its time of day to the second.
pub uninterp spec fn date_and_time(t: Timestamp) -> Seq<char>;

/// `DateTime::format` with `%Y-%m-%d %H:%M:%S` writes the date and the time of
/// day of an instant, which the text depends on alone.
#[verifier::external_body]
pub(crate) fn format_date_and_time(t: Timestamp) -> (r: String)
    requires
        is_instant(t),
    ensures
        r@ == date_and_time(t),
{
    chrono::DateTime::from_timestamp(t.secs, t.nanos).unwrap().format("%Y-%m-%d %H:%M:%S").to_string()
}

/// An instant as `DateTime::format` writes it to the second, with a `T` between
/// date and time and a `Z` behind.
pub uninterp spec fn utc_text(t: Timestamp) -> Seq<char>;

/// `DateTime::format` with `%Y-%m-%dT%H:%M:%SZ` writes the date and the time of
/// day of an instant, which the text depends on alone.
#[verifier::external_body]
pub(crate) fn format_utc(t: Timestamp) -> (r: String)
    requires
        is_instant(t),
    ensures
        r@ == utc_text(t),
{
    chrono::DateTime::from_timestamp(t.secs, t.nanos).unwrap().format("%Y-%m-%dT%H:%M:%SZ").to_string()
}

/// The instant a number of milliseconds after the epoch, or `now` where the
/// calendar has none.
pub fn instant_or(ms: i64, now: Timestamp) -> (r: Timestamp)
    ensures
        r == (if millis_in_calendar(ms as int) {
            instant_of_millis(ms as int)
        } else {
            now
        }),
{
    match timestamp_millis_opt(ms) {
        Some(t) => t,
        None => now,
    }
}

/// The order of instants is the order of time.
pub proof fn instants_follow_time(a: Timestamp, b: Timestamp)
    requires
        a.nanos < 1_000_000_000,
        b.nanos < 1_000_000_000,
    ensures
        a.spec_le(b) <==> a.secs * 1_000_000_000 + a.nanos <= b.secs * 1_000_000_000 + b.nanos,
        a.spec_before(b) <==> a.secs * 1_000_000_000 + a.nanos < b.secs * 1_000_000_000 + b.nanos,
{
}

/// What elapsed between two instants is the difference of their times, and turns its sign
/// with them. Leap seconds are left out.
pub proof fn elapsed_time_is_a_difference(a: Timestamp, b: Timestamp)
    requires
        a.nanos < 1_000_000_000,
        b.nanos < 1_000_000_000,
    ensures
        b.secs * 1_000_000_000 + b.nanos + elapsed(a, b) == a.secs * 1_000_000_000 + a.nanos,
        elapsed(a, b) == -elapsed(b, a),
{
}

/// Shifting an instant by whole seconds moves it by these. Leap seconds are left out.
pub proof fn shifting_moves_by_seconds(t: Timestamp, k: int)
    requires
        t.nanos < 1_000_000_000,
    ensures
        shifted(t, k) matches Some(s) ==> s.secs == t.secs + k && s.nanos == t.nanos,
        shifted(t, k) is Some <==> -8_334_601_228_800_000 <= (t.secs + k) * 1000
            <= 8_210_266_876_799_999,
{
}

/// An instant of a number of milliseconds lies that many after the beginning of time, and
/// later numbers give later instants.
pub proof fn millis_count_time(a: int, b: int)
    requires
        millis_in_calendar(a),
        millis_in_calendar(b),
    ensures
        instant_of_millis(a).secs * 1000 + instant_of_millis(a).nanos / 1_000_000 == a,
        instant_of_millis(a).nanos < 1_000_000_000,
        a <= b <==> instant_of_millis(a).spec_le(instant_of_millis(b)),
{
    millis_round_trip(a);
    millis_round_trip(b);
}

} // verus!
