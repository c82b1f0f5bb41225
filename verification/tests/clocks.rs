use switchyard::clock::Clock;
use switchyard::time::{Moment, FIRST_SECOND, LAST_SECOND};

#[test]
fn default_is_europe_berlin() {
    let c = Clock::default();
    assert_eq!(c.tz_name(), "Europe/Berlin");
}

#[test]
fn tz_name_round_trips_parse() {
    let c = Clock::new("America/New_York").expect("America/New_York should parse");
    assert_eq!(c.tz_name(), "America/New_York");
}

#[test]
fn invalid_zone_fails_parse() {
    assert!(Clock::new("Europe/Bogus").is_none());
}

#[test]
fn local_time_follows_the_zone() {
    // 2024-01-01 00:30:00 UTC, and the same day in summer.
    let winter = Moment::from_secs(1_704_069_000);
    let summer = Moment::from_secs(1_719_793_800);
    let berlin = Clock::default();
    assert_eq!(berlin.local_time(winter), (1, 30, 0));
    assert_eq!(berlin.local_time(summer), (2, 30, 0));
    let utc = Clock::new("UTC").unwrap();
    assert_eq!(utc.local_time(winter), (0, 30, 0));
    let york = Clock::new("America/New_York").unwrap();
    assert_eq!(york.local_time(winter), (19, 30, 0));
}

#[test]
fn moments_read_as_timestamps() {
    assert_eq!(Moment::from_secs(0).text(), "1970-01-01T00:00:00+00:00");
    let half = Moment {
        nanos: 1_500_000_000,
    };
    assert_eq!(half.text(), "1970-01-01T00:00:01.500+00:00");
    assert_eq!(half.millis(), 1_500);
    assert_eq!((half.timestamp().seconds, half.timestamp().nanos), (1, 500_000_000));
}

#[test]
fn the_calendar_ends() {
    assert!(Moment::from_unix(LAST_SECOND).is_some());
    assert!(Moment::from_unix(LAST_SECOND + 1).is_none());
    assert!(Moment::from_unix(FIRST_SECOND).is_some());
    assert!(Moment::from_unix(FIRST_SECOND - 1).is_none());
}
