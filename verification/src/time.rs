//! Instants and durations.
//!
//! A [`Moment`] is a UTC instant in whole nanoseconds since the Unix epoch and
//! a [`Span`] a non-negative length of time. A [`Timestamp`] is the wire form
//! of an instant, which can also denote a leap second.

use chrono::{DateTime, TimeDelta, Utc};
use vstd::prelude::*;

verus! {

pub const NANOS_PER_SECOND: u32 = 1_000_000_000;

/// First second of the supported calendar.
pub const FIRST_SECOND: i64 = -8_334_601_228_800;

/// Last second of the supported calendar.
pub const LAST_SECOND: i64 = 8_210_266_876_799;

/// The longest span that can be added to an instant.
pub const LONGEST_DELTA: u128 = 9_223_372_036_854_775_807_000_000;

/// A non-negative length of time.
#[derive(Clone, Copy, Debug, PartialEq, Eq, Structural)]
pub struct Span {
    pub nanos: u128,
}

/// A UTC instant, in nanoseconds since the Unix epoch.
#[derive(Clone, Copy, Debug, PartialEq, Eq, Structural)]
pub struct Moment {
    pub nanos: i128,
}

/// The wire form of an instant: whole seconds since the Unix epoch plus the
/// nanoseconds of that second.
#[derive(Clone, Copy, Debug, PartialEq, Eq, Structural)]
pub struct Timestamp {
    pub seconds: i64,
    pub nanos: i32,
}

impl Span {
    pub fn from_secs(secs: u64) -> (out: Span)
        ensures
            out.nanos == secs * 1_000_000_000,
    {
        Span { nanos: secs as u128 * 1_000_000_000 }
    }

    pub fn from_millis(millis: u64) -> (out: Span)
        ensures
            out.nanos == millis * 1_000_000,
    {
        Span { nanos: millis as u128 * 1_000_000 }
    }

    /// How far an instant moves when the span is added to it. A span longer
    /// than [`LONGEST_DELTA`] counts as none.
    pub open spec fn spec_delta(self) -> int {
        if self.nanos > LONGEST_DELTA {
            0
        } else {
            self.nanos as int
        }
    }

    pub fn delta(self) -> (out: i128)
        ensures
            out == self.spec_delta(),
    {
        if self.nanos > LONGEST_DELTA {
            0
        } else {
            self.nanos as i128
        }
    }
}

impl Moment {
    /// Within the supported calendar.
    pub open spec fn in_calendar(self) -> bool {
        in_calendar(self.nanos as int)
    }

    pub fn from_secs(secs: i64) -> (out: Moment)
        ensures
            out.nanos == secs * 1_000_000_000,
    {
        Moment { nanos: secs as i128 * 1_000_000_000 }
    }

    /// The instant `secs` seconds after the epoch, where the calendar has it.
    pub fn from_unix(secs: i64) -> (out: Option<Moment>)
        ensures
            out is Some == (FIRST_SECOND <= secs <= LAST_SECOND),
            out matches Some(m) ==> m.nanos == secs * 1_000_000_000,
    {
        match checked_instant(secs, 0) {
            Some((s, _)) => Some(Moment::from_secs(s)),
            None => None,
        }
    }

    /// Whole milliseconds since the epoch, rounded down.
    pub fn millis(self) -> (out: i64)
        requires
            self.in_calendar(),
        ensures
            out == self.nanos as int / 1_000_000,
    {
        let q: i128 = self.nanos / 1_000_000;
        let r: i128 = self.nanos % 1_000_000;
        if r < 0 {
            (q - 1) as i64
        } else {
            q as i64
        }
    }

    /// The wire form of the instant.
    pub fn timestamp(self) -> (out: Timestamp)
        requires
            self.in_calendar(),
        ensures
            out == timestamp_of(self),
    {
        let q: i128 = self.nanos / 1_000_000_000;
        let r: i128 = self.nanos % 1_000_000_000;
        if r < 0 {
            Timestamp { seconds: (q - 1) as i64, nanos: (r + 1_000_000_000) as i32 }
        } else {
            Timestamp { seconds: q as i64, nanos: r as i32 }
        }
    }
}

impl Moment {
    /// How the instant reads.
    pub open spec fn spec_text(self) -> Seq<char> {
        rfc3339_text(timestamp_of(self).seconds, timestamp_of(self).nanos as u32)
    }

    pub fn text(self) -> (out: String)
        requires
            self.in_calendar(),
        ensures
            out@ == self.spec_text(),
    {
        let t = self.timestamp();
        rfc3339(t.seconds, t.nanos as u32)
    }
}

/// The wire form of an instant.
pub open spec fn timestamp_of(m: Moment) -> Timestamp {
    Timestamp {
        seconds: (m.nanos as int / 1_000_000_000) as i64,
        nanos: (m.nanos as int % 1_000_000_000) as i32,
    }
}

/// An instant, in nanoseconds, that the supported calendar has.
pub open spec fn in_calendar(nanos: int) -> bool {
    FIRST_SECOND * 1_000_000_000 <= nanos < (LAST_SECOND + 1) * 1_000_000_000
}

/// A second and a nanosecond count that name an instant: the second lies in
/// the calendar, and only the last second of a minute may run past a full
/// second's worth of nanoseconds (a leap second).
pub open spec fn names_instant(secs: int, nanos: int) -> bool {
    &&& FIRST_SECOND <= secs <= LAST_SECOND
    &&& 0 <= nanos < 2_000_000_000
    &&& nanos >= NANOS_PER_SECOND ==> secs % 60 == 59
}

/// Where `whole` seconds after `(secs, nanos)` lie. Leaving a leap second
/// behind drops its extra second.
pub open spec fn seconds_later(secs: int, nanos: int, whole: int) -> (int, int) {
    if whole > 0 && nanos >= NANOS_PER_SECOND {
        (secs + whole, nanos - NANOS_PER_SECOND)
    } else {
        (secs + whole, nanos)
    }
}

/// `chrono::DateTime::<Utc>::from_timestamp`: whether the pair names an
/// instant of the calendar. The result is present exactly for such pairs and
/// holds them unchanged.
#[verifier::external_body]
fn checked_instant(secs: i64, nanos: u32) -> (out: Option<(i64, u32)>)
    ensures
        out is Some == names_instant(secs as int, nanos as int),
        out matches Some(p) ==> p == (secs, nanos),
{
    DateTime::<Utc>::from_timestamp(secs, nanos).map(
        |dt: DateTime<Utc>| (dt.timestamp(), dt.timestamp_subsec_nanos()),
    )
}

/// What `chrono::DateTime::<Utc>::to_rfc3339` writes for an instant given by
/// its second and nanosecond.
pub uninterp spec fn rfc3339_text(secs: i64, nanos: u32) -> Seq<char>;

/// `chrono::DateTime::<Utc>::to_rfc3339`: the instant as text. How the text is
/// laid out is left to chrono.
#[verifier::external_body]
fn rfc3339(secs: i64, nanos: u32) -> (out: String)
    requires
        names_instant(secs as int, nanos as int),
    ensures
        out@ == rfc3339_text(secs, nanos),
{
    DateTime::<Utc>::from_timestamp(secs, nanos).unwrap().to_rfc3339()
}

/// `chrono::DateTime::checked_add_signed` with a whole number of seconds: the
/// instant that many seconds later, absent exactly when it lies beyond the
/// calendar.
#[verifier::external_body]
fn checked_seconds_later(secs: i64, nanos: u32, whole: u32) -> (out: Option<(i64, u32)>)
    requires
        names_instant(secs as int, nanos as int),
    ensures
        out is Some == (secs + whole <= LAST_SECOND),
        out matches Some(p) ==> (p.0 as int, p.1 as int) == seconds_later(
            secs as int,
            nanos as int,
            whole as int,
        ),
{
    let start = DateTime::<Utc>::from_timestamp(secs, nanos).unwrap();
    start.checked_add_signed(TimeDelta::seconds(whole as i64)).map(
        |dt: DateTime<Utc>| (dt.timestamp(), dt.timestamp_subsec_nanos()),
    )
}

impl Timestamp {
    /// Nanoseconds with a negative count read as zero.
    pub open spec fn spec_nanos(self) -> int {
        if self.nanos < 0 {
            0
        } else {
            self.nanos as int
        }
    }

    /// The timestamp names an instant of the calendar.
    pub open spec fn is_instant(self) -> bool {
        names_instant(self.seconds as int, self.spec_nanos())
    }

    /// The timestamp `whole` seconds later, where both ends are instants of
    /// the calendar.
    pub open spec fn spec_later(self, whole: u32) -> Option<Timestamp> {
        if self.is_instant() && self.seconds + whole <= LAST_SECOND {
            let p = seconds_later(self.seconds as int, self.spec_nanos(), whole as int);
            Some(Timestamp { seconds: p.0 as i64, nanos: p.1 as i32 })
        } else {
            None
        }
    }

    pub fn later(self, whole: u32) -> (out: Option<Timestamp>)
        ensures
            out == self.spec_later(whole),
    {
        let nanos: u32 = if self.nanos < 0 {
            0
        } else {
            self.nanos as u32
        };
        match checked_instant(self.seconds, nanos) {
            None => None,
            Some((secs, frac)) => match checked_seconds_later(secs, frac, whole) {
                None => None,
                Some((end, rest)) => Some(Timestamp { seconds: end, nanos: rest as i32 }),
            },
        }
    }

    /// Milliseconds since the epoch, held to the range of the result.
    pub open spec fn spec_millis(self) -> int {
        let ms = self.seconds * 1000 + toward_zero(self.nanos as int, 1_000_000);
        if ms < i64::MIN {
            i64::MIN as int
        } else if ms > i64::MAX {
            i64::MAX as int
        } else {
            ms
        }
    }

    pub fn millis(self) -> (out: i64)
        ensures
            out == self.spec_millis(),
    {
        let ms: i128 = self.seconds as i128 * 1000 + (self.nanos / 1_000_000) as i128;
        if ms < i64::MIN as i128 {
            i64::MIN
        } else if ms > i64::MAX as i128 {
            i64::MAX
        } else {
            ms as i64
        }
    }

    /// The timestamp of a count of milliseconds since the epoch.
    pub fn from_millis(ms: i64) -> (out: Timestamp)
        ensures
            out.seconds == ms as int / 1000,
            out.nanos == (ms as int % 1000) * 1_000_000,
    {
        let q: i64 = ms / 1000;
        let r: i64 = ms % 1000;
        if r < 0 {
            Timestamp { seconds: q - 1, nanos: ((r + 1000) * 1_000_000) as i32 }
        } else {
            Timestamp { seconds: q, nanos: (r * 1_000_000) as i32 }
        }
    }
}

/// Quotient rounded toward zero.
pub open spec fn toward_zero(n: int, d: int) -> int {
    if n < 0 {
        -((-n) / d)
    } else {
        n / d
    }
}

/// A count of milliseconds survives the trip through its timestamp.
pub proof fn millis_round_trip(ms: i64, t: Timestamp)
    requires
        t.seconds == ms as int / 1000,
        t.nanos == (ms as int % 1000) * 1_000_000,
    ensures
        t.spec_millis() == ms,
{
}

/// A later timestamp lies the asked number of seconds on, within the same
/// fraction of a second, and there is one exactly where both ends are instants
/// of the calendar.
pub proof fn later_adds_the_seconds(t: Timestamp, whole: u32)
    ensures
        t.spec_later(whole) is Some <==> FIRST_SECOND <= t.seconds && t.seconds + whole
            <= LAST_SECOND && t.nanos < 2_000_000_000 && (t.nanos >= 1_000_000_000 ==> t.seconds
            as int % 60 == 59),
        t.spec_later(whole) matches Some(e) ==> {
            &&& e.seconds == t.seconds + whole
            &&& 0 <= t.nanos < 1_000_000_000 ==> e.nanos == t.nanos
            &&& t.nanos < 0 ==> e.nanos == 0
        },
{
}

/// Two steps of whole seconds are one step of their sum.
pub proof fn later_steps_add_up(t: Timestamp, a: u32, b: u32, sum: u32)
    requires
        0 <= t.nanos < 1_000_000_000,
        sum == a + b,
    ensures
        t.spec_later(sum) is Some ==> t.spec_later(a) is Some,
        t.spec_later(a) matches Some(mid) ==> mid.spec_later(b) == t.spec_later(sum),
{
}

/// The wire form of an instant names that instant: its seconds and nanoseconds
/// make it up, and the nanoseconds stay within one second.
pub proof fn timestamp_names_the_instant(m: Moment)
    requires
        m.in_calendar(),
    ensures
        timestamp_of(m).seconds * 1_000_000_000 + timestamp_of(m).nanos == m.nanos,
        0 <= timestamp_of(m).nanos < 1_000_000_000,
        timestamp_of(m).is_instant(),
{
}

/// Milliseconds of a timestamp count up to its instant and stop short of the
/// next millisecond, wherever they fit.
pub proof fn millis_reach_the_timestamp(t: Timestamp)
    requires
        0 <= t.nanos < 1_000_000_000,
    ensures
        i64::MIN < t.spec_millis() < i64::MAX ==> {
            let at = t.seconds * 1_000_000_000 + t.nanos;
            t.spec_millis() * 1_000_000 <= at < (t.spec_millis() + 1) * 1_000_000
        },
        t.seconds * 1000 > i64::MAX ==> t.spec_millis() == i64::MAX,
        t.seconds * 1000 + 1000 <= i64::MIN ==> t.spec_millis() == i64::MIN,
{
}

/// A later timestamp has no fewer milliseconds.
pub proof fn millis_keep_order(a: Timestamp, b: Timestamp)
    requires
        0 <= a.nanos < 1_000_000_000,
        0 <= b.nanos < 1_000_000_000,
        a.seconds < b.seconds || (a.seconds == b.seconds && a.nanos <= b.nanos),
    ensures
        a.spec_millis() <= b.spec_millis(),
{
}

/// A span moves an instant by its own length, unless it is too long to be added
/// to one.
pub proof fn span_moves_by_its_length(s: Span)
    ensures
        s.nanos <= LONGEST_DELTA ==> s.spec_delta() == s.nanos,
        s.nanos > LONGEST_DELTA ==> s.spec_delta() == 0,
{
}

} // verus!
