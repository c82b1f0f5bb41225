//! The civil time zone in which timestamps are shown.

use crate::time::{names_instant, timestamp_of, Moment};
use chrono::{DateTime, Timelike, Utc};
use chrono_tz::Tz;
use vstd::prelude::*;

verus! {

/// `chrono_tz` knows a zone of that name.
pub uninterp spec fn is_zone(name: Seq<char>) -> bool;

/// `chrono_tz::Tz::from_str` and `chrono_tz::Tz::name`: the zone of that name,
/// by its name. Names are matched exactly, so the zone found is called what
/// was asked for. Which names there are is left to the zone database.
#[verifier::external_body]
fn find_zone(name: &str) -> (out: Option<String>)
    ensures
        out is Some == is_zone(name@),
        out matches Some(n) ==> n@ == name@,
{
    name.parse::<Tz>().ok().map(|tz: Tz| tz.name().to_string())
}

/// `chrono_tz::Europe::Berlin`, by its name, which is a zone's name.
#[verifier::external_body]
fn berlin() -> (out: String)
    ensures
        out@ == "Europe/Berlin"@,
        is_zone(out@),
{
    chrono_tz::Europe::Berlin.name().to_string()
}

/// The wall clock of a zone at a second since the epoch: hour, minute and
/// second, as `chrono_tz` gives them.
pub uninterp spec fn wall_clock(zone: Seq<char>, secs: i64) -> (u32, u32, u32);

/// `chrono::DateTime::with_timezone` with a `chrono_tz` zone, and the hour,
/// minute and second there. They lie in their usual ranges; what they are
/// is left to the zone database.
#[verifier::external_body]
fn time_in(zone: &str, secs: i64) -> (out: (u32, u32, u32))
    requires
        is_zone(zone@),
        names_instant(secs as int, 0),
    ensures
        out == wall_clock(zone@, secs),
        out.0 < 24 && out.1 < 60 && out.2 < 60,
{
    let tz: Tz = zone.parse().unwrap();
    let t = DateTime::<Utc>::from_timestamp(secs, 0).unwrap().with_timezone(&tz);
    (t.hour(), t.minute(), t.second())
}

/// A clock that shows the time of one zone.
#[derive(Debug)]
pub struct Clock {
    tz: String,
}

impl Clock {
    #[verifier::type_invariant]
    spec fn has_zone(self) -> bool {
        is_zone(self.tz@)
    }

    /// The zone's name.
    pub closed spec fn zone(self) -> Seq<char> {
        self.tz@
    }

    /// A clock of the named zone, where there is one.
    pub fn new(name: &str) -> (out: Option<Clock>)
        ensures
            out is Some == is_zone(name@),
            out matches Some(c) ==> c.zone() == name@,
    {
        match find_zone(name) {
            Some(tz) => Some(Clock { tz }),
            None => None,
        }
    }

    /// The zone's name in the zone database.
    pub fn tz_name(&self) -> (out: &str)
        ensures
            out@ == self.zone(),
    {
        self.tz.as_str()
    }

    /// Hour, minute and second of the wall clock in the zone.
    pub fn local_time(&self, now: Moment) -> (out: (u32, u32, u32))
        requires
            now.in_calendar(),
        ensures
            out == wall_clock(self.zone(), timestamp_of(now).seconds),
            out.0 < 24 && out.1 < 60 && out.2 < 60,
    {
        proof {
            use_type_invariant(self);
        }
        time_in(self.tz.as_str(), now.timestamp().seconds)
    }
}

impl Default for Clock {
    fn default() -> (out: Self)
        ensures
            out.zone() == "Europe/Berlin"@,
    {
        Clock { tz: berlin() }
    }
}

} // verus!
