use switchyard::sim_clock::{headless_base, parse_offset, parse_time_of_day, NowSource};
use switchyard::time::{Moment, Span};
use switchyard::timeline::{ClockDriver, Schedule};

fn millis(ms: u64) -> Option<Span> {
    Some(Span::from_millis(ms))
}

fn secs(s: u64) -> Option<Span> {
    Some(Span::from_secs(s))
}

#[test]
fn schedule_and_clock_parse_known_values() {
    assert_eq!(Schedule::parse("relative"), Some(Schedule::Relative));
    assert_eq!(Schedule::parse("absolute"), Some(Schedule::Absolute));
    assert_eq!(Schedule::parse("wallclock"), None);
    assert_eq!(ClockDriver::parse("real"), Some(ClockDriver::Real));
    assert_eq!(ClockDriver::parse("stepped"), Some(ClockDriver::Stepped));
    assert_eq!(ClockDriver::parse("instant"), None);
}

#[test]
fn parse_offset_units() {
    assert_eq!(parse_offset("500ms"), millis(500));
    assert_eq!(parse_offset("60s"), secs(60));
    assert_eq!(parse_offset("3min"), secs(180));
    assert_eq!(parse_offset("2h"), secs(7200));
    assert_eq!(parse_offset("90"), secs(90)); // bare = seconds
    assert_eq!(parse_offset("1.5s"), millis(1500));
    assert_eq!(parse_offset("nope"), None);
    assert_eq!(parse_offset("-5s"), None);
    assert_eq!(parse_offset("5 light-years"), None);
}

#[test]
fn parse_time_of_day_hhmm() {
    assert_eq!(parse_time_of_day("00:00"), secs(0));
    assert_eq!(parse_time_of_day("14:30"), secs(52200));
    assert_eq!(parse_time_of_day("24:00"), None);
    assert_eq!(parse_time_of_day("12:60"), None);
    assert_eq!(parse_time_of_day("noon"), None);
}

#[test]
fn offsets_accept_every_unit_and_spacing() {
    for (text, s) in [
        ("7sec", 7),
        ("7secs", 7),
        (" 7 s ", 7),
        ("7m", 420),
        ("7mins", 420),
        ("7hr", 25200),
        ("7hrs", 25200),
        ("+7", 7),
        ("7.", 7),
        ("-0", 0),
    ] {
        assert_eq!(parse_offset(text), secs(s), "{text}");
    }
    for text in ["", ".", "+", "1.2.3s", "s", "1e3s", "7 S", "7\u{b5}s", "--1"] {
        assert_eq!(parse_offset(text), None, "{text}");
    }
}

/// What the standard library's double-precision arithmetic makes of a number.
fn by_doubles(number: &str, unit: &str) -> Option<u128> {
    let v: f64 = number.parse().unwrap();
    if !v.is_finite() || v < 0.0 {
        return None;
    }
    let secs = match unit {
        "ms" => v / 1000.0,
        "s" => v,
        "min" => v * 60.0,
        _ => v * 3600.0,
    };
    std::time::Duration::try_from_secs_f64(secs).ok().map(|d| d.as_nanos())
}

#[test]
fn offsets_agree_with_double_precision() {
    let tiny = format!("0.{}1", "0".repeat(330));
    let smallest = format!("0.{}5", "0".repeat(323));
    let long = format!("1.{}", "142857".repeat(40));
    let mut numbers: Vec<String> = [
        "0", "0.1", "0.25", ".5", "1.0005", "12.75", "99.999", "0.000000001", "0.0000000004",
        "0.0000000005", "0.0000000006", "0.0000000015", "0.0000000025", "0.3333333333333",
        "59.9999999999", "123456789.123456789", "9007199254740993", "9007199254740993.0000001",
        "9007199254740992.5", "4503599627370496.5", "4503599627370497.5", "18446744073709549568",
        "18446744073709550592", "18446744073709551615", "18446744073709551616",
        "18446744073709551615000", "-0", "-0.0", "-1", "-0.000001", "+3.", "0.00000000046566128",
    ]
    .iter()
    .map(|t| t.to_string())
    .collect();
    for n in [tiny, smallest, long] {
        numbers.push(format!("-{n}"));
        numbers.push(n);
    }
    let mut seed: u64 = 0x9e37_79b9_7f4a_7c15;
    for _ in 0..300 {
        seed = seed.wrapping_mul(6_364_136_223_846_793_005).wrapping_add(1);
        let whole = seed >> (seed % 61);
        seed = seed.wrapping_mul(6_364_136_223_846_793_005).wrapping_add(1);
        numbers.push(format!("{whole}.{seed}"));
    }
    for text in numbers {
        for unit in ["ms", "s", "min", "h"] {
            let got = parse_offset(&format!("{text}{unit}")).map(|d| d.nanos);
            assert_eq!(got, by_doubles(&text, unit), "{text}{unit}");
        }
    }
}

#[test]
fn numbers_are_read_in_double_precision() {
    let nanos = |text: &str| parse_offset(text).map(|d| d.nanos);
    assert_eq!(nanos("123456789.123456789s"), Some(123_456_789_123_456_791));
    assert_eq!(nanos("9007199254740993"), Some(9_007_199_254_740_992_000_000_000));
    // Below half of the smallest double a negative number reads as zero.
    assert_eq!(nanos(&format!("-0.{}1", "0".repeat(330))), Some(0));
    assert_eq!(nanos(&format!("-0.{}5", "0".repeat(323))), None);
}

#[test]
fn short_numbers_lose_nothing() {
    assert_eq!(parse_offset("1.5s"), millis(1_500));
    assert_eq!(parse_offset("0.0009765625").unwrap().nanos, 976_562);
    assert_eq!(parse_offset("2501999792983").unwrap().nanos, 2_501_999_792_983_000_000_000);
    assert_eq!(parse_offset("4294967296ms"), millis(4_294_967_296));
    assert_eq!(parse_offset("3ms"), millis(3));
}

#[test]
fn offsets_that_no_span_holds_are_refused() {
    assert_eq!(
        parse_offset("18446744073709549568").unwrap().nanos,
        18_446_744_073_709_549_568_000_000_000
    );
    assert_eq!(parse_offset("18446744073709551616"), None);
    assert_eq!(parse_offset("999999999999999999999999999999999999999999h"), None);
}

#[test]
fn times_of_day_are_trimmed_around_the_colon() {
    assert_eq!(parse_time_of_day("  7 : 05 "), secs(7 * 3600 + 300));
    assert_eq!(parse_time_of_day("23:59"), secs(86340));
    assert_eq!(parse_time_of_day("7:5:1"), None);
    assert_eq!(parse_time_of_day(":30"), None);
}

#[test]
fn simulated_now_follows_the_host_clock() {
    let base = headless_base();
    let wall = Moment::from_secs(5);
    let sim = NowSource::Sim { base };
    assert_eq!(sim.now(wall, Span::from_secs(90)).nanos, base.nanos + 90_000_000_000);
    assert_eq!(NowSource::default().now(wall, Span::from_secs(90)), wall);
    assert_eq!(base.timestamp().seconds, 1_577_836_800);
}

#[test]
fn unit_synonyms_and_blanks_change_nothing() {
    for n in ["0", "1.25", "3600", ".5"] {
        let bare = parse_offset(n);
        assert!(bare.is_some(), "{n}");
        for unit in ["s", "sec", "secs"] {
            assert_eq!(parse_offset(&format!("{n}{unit}")), bare);
            assert_eq!(parse_offset(&format!(" {n}\t {unit} ")), bare);
        }
        let minutes = parse_offset(&format!("{n}m"));
        assert!(minutes.is_some());
        assert_eq!(parse_offset(&format!("{n}min")), minutes);
        assert_eq!(parse_offset(&format!("  {n}  mins")), minutes);
        let hours = parse_offset(&format!("{n}h"));
        assert!(hours.is_some());
        assert_eq!(parse_offset(&format!("{n} hr")), hours);
        assert_eq!(parse_offset(&format!("{n}hrs  ")), hours);
    }
    assert_eq!(parse_offset("1.5min"), secs(90));
}
