//! Scenario time: the source of "now", and how written times are read.

use crate::double::{
    are_digits, decimal_grains, decimal_mantissa, digits_value, doubles_stay, grains_per_one,
    nearest_double, nearest_double_is_near, nearest_double_is_precise, nearest_even,
    nearest_even_is_near, nearest_even_of_near, nearest_even_of_parts, nearest_even_of_ratio,
    round_decimal, Double, GRAIN_SHIFT,
};
use crate::text::{
    all_digits, chars_of, decimal_round_trip, decimal_text, decimal_text_parses, decimal_value,
    is_digit, is_white, parse_unsigned, spells, trim, trimmed, trimmed_end, trimmed_start, unsigned,
};
use crate::time::{in_calendar, Moment, Span};
use vstd::arithmetic::div_mod::lemma_fundamental_div_mod;
use vstd::arithmetic::power::{lemma_pow_positive, pow};
use vstd::arithmetic::power2::{
    lemma2_to64, lemma2_to64_rest, lemma_pow2_adds, lemma_pow2_pos, lemma_pow2_strictly_increases,
    lemma_pow2_unfold, pow2,
};
use vstd::prelude::*;

verus! {

/// Where "now" comes from: the wall clock, or a fixed base plus the elapsed
/// time of a clock that the host advances.
#[derive(Clone, Copy, Debug, PartialEq, Eq, Structural)]
pub enum NowSource {
    Wall,
    Sim { base: Moment },
}

impl NowSource {
    pub open spec fn spec_now(self, wall: Moment, elapsed: Span) -> int {
        match self {
            NowSource::Wall => wall.nanos as int,
            NowSource::Sim { base } => base.nanos + elapsed.spec_delta(),
        }
    }

    /// The current time, given the wall clock's reading and the elapsed time
    /// of the host's clock.
    pub fn now(&self, wall: Moment, elapsed: Span) -> (out: Moment)
        requires
            in_calendar(self.spec_now(wall, elapsed)),
        ensures
            out.nanos == self.spec_now(wall, elapsed),
    {
        match self {
            NowSource::Wall => wall,
            NowSource::Sim { base } => Moment { nanos: base.nanos + elapsed.delta() },
        }
    }
}

impl Default for NowSource {
    fn default() -> (out: Self)
        ensures
            out == NowSource::Wall,
    {
        NowSource::Wall
    }
}

/// The fixed base instant of headless runs: 2020-01-01T00:00:00Z.
pub fn headless_base() -> (out: Moment)
    ensures
        out.nanos == 1_577_836_800 * 1_000_000_000,
        out.in_calendar(),
{
    Moment::from_secs(1_577_836_800)
}

/// Advancing the host's clock advances simulated time by as much.
pub proof fn sim_time_follows_clock(base: Moment, wall: Moment, a: Span, b: Span)
    requires
        a.nanos <= crate::time::LONGEST_DELTA,
        b.nanos <= crate::time::LONGEST_DELTA,
    ensures
        (NowSource::Sim { base }).spec_now(wall, b) - (NowSource::Sim { base }).spec_now(wall, a)
            == b.nanos - a.nanos,
{
}

/// The position of the first `c` in `s`, or the length of `s`.
pub open spec fn first_index(s: Seq<char>, c: char) -> int
    decreases s.len(),
{
    if s.len() == 0 || s[0] == c {
        0
    } else {
        1 + first_index(s.drop_first(), c)
    }
}

/// Offset from midnight of a written `HH:MM`, in seconds.
pub open spec fn time_of_day(s: Seq<char>) -> Option<int> {
    let t = trimmed(s);
    let i = first_index(t, ':');
    if i >= t.len() {
        None
    } else {
        match (unsigned(trimmed(t.subrange(0, i))), unsigned(trimmed(t.skip(i + 1)))) {
            (Some(h), Some(m)) => if h < 24 && m < 60 {
                Some(h * 3600 + m * 60)
            } else {
                None
            },
            _ => None,
        }
    }
}

/// The part of `s` from `from` up to `to`.
fn slice(s: &Vec<char>, from: usize, to: usize) -> (out: Vec<char>)
    requires
        from <= to <= s.len(),
    ensures
        out@ == s@.subrange(from as int, to as int),
{
    let mut out: Vec<char> = Vec::new();
    let mut i: usize = from;
    while i < to
        invariant
            from <= i <= to <= s.len(),
            out@ == s@.subrange(from as int, i as int),
        decreases to - i,
    {
        out.push(s[i]);
        i = i + 1;
        assert(out@ =~= s@.subrange(from as int, i as int));
    }
    out
}

fn find_first(s: &Vec<char>, c: char) -> (out: usize)
    ensures
        out == first_index(s@, c),
        out <= s.len(),
{
    let mut i: usize = 0;
    assert(s@.skip(0) =~= s@);
    while i < s.len() && s[i] != c
        invariant
            i <= s.len(),
            first_index(s@, c) == i + first_index(s@.skip(i as int), c),
        decreases s.len() - i,
    {
        assert(s@.skip(i as int).drop_first() =~= s@.skip(i + 1));
        i = i + 1;
    }
    i
}

/// Reads a wall time `HH:MM` as the offset from midnight. Absent for
/// malformed text and for an hour or minute out of range.
pub fn parse_time_of_day(s: &str) -> (out: Option<Span>)
    ensures
        out is Some == time_of_day(s@) is Some,
        out matches Some(d) ==> d.nanos == time_of_day(s@)->0 * 1_000_000_000,
{
    let chars = chars_of(s);
    let t = trim(&chars);
    let i = find_first(&t, ':');
    if i >= t.len() {
        return None;
    }
    let before = slice(&t, 0, i);
    let after = slice(&t, i + 1, t.len());
    assert(after@ =~= t@.skip(i + 1));
    let h = parse_unsigned(&trim(&before));
    let m = parse_unsigned(&trim(&after));
    match (h, m) {
        (Some(h), Some(m)) => {
            if h >= 24 || m >= 60 {
                return None;
            }
            Some(Span::from_secs(h * 3600 + m * 60))
        },
        _ => None,
    }
}

/// A letter of the unit suffix.
pub open spec fn is_letter(c: char) -> bool {
    'a' <= c <= 'z' || 'A' <= c <= 'Z'
}

/// The position of the first letter, or the length of `s`.
pub open spec fn first_letter(s: Seq<char>) -> int
    decreases s.len(),
{
    if s.len() == 0 || is_letter(s[0]) {
        0
    } else {
        1 + first_letter(s.drop_first())
    }
}

/// What a unit suffix makes of a number to give seconds: a factor and a
/// divisor.
pub open spec fn unit_scale(unit: Seq<char>) -> Option<(nat, nat)> {
    if unit == "ms"@ {
        Some((1, 1000))
    } else if unit == "s"@ || unit == "sec"@ || unit == "secs"@ {
        Some((1, 1))
    } else if unit == "m"@ || unit == "min"@ || unit == "mins"@ {
        Some((60, 1))
    } else if unit == "h"@ || unit == "hr"@ || unit == "hrs"@ {
        Some((3600, 1))
    } else {
        None
    }
}

/// The text without a leading sign.
pub open spec fn unsigned_part(s: Seq<char>) -> Seq<char> {
    if s.len() > 0 && (s[0] == '+' || s[0] == '-') {
        s.drop_first()
    } else {
        s
    }
}

/// The digits before the decimal point.
pub open spec fn whole_digits(s: Seq<char>) -> Seq<char> {
    let body = unsigned_part(s);
    body.subrange(0, first_index(body, '.'))
}

/// The digits behind the decimal point; none without a point.
pub open spec fn fraction_digits(s: Seq<char>) -> Seq<char> {
    let body = unsigned_part(s);
    let i = first_index(body, '.');
    if i < body.len() {
        body.skip(i + 1)
    } else {
        Seq::empty()
    }
}

/// A plain decimal number: an optional sign, digits, at most one point, at
/// least one digit.
pub open spec fn is_decimal(s: Seq<char>) -> bool {
    &&& all_digits(whole_digits(s))
    &&& all_digits(fraction_digits(s))
    &&& whole_digits(s).len() + fraction_digits(s).len() > 0
}

/// The number's digits without its point.
pub open spec fn mantissa(s: Seq<char>) -> nat {
    decimal_value(whole_digits(s) + fraction_digits(s))
}

/// One more nanosecond than the longest span holds.
pub const SPAN_LIMIT: u128 = 18_446_744_073_709_551_616_000_000_000;

/// The double nearest to a number, its sign aside, in grains.
pub open spec fn number_grains(number: Seq<char>) -> nat {
    nearest_double(
        mantissa(number) * grains_per_one(),
        pow(10, fraction_digits(number).len()) as nat,
    )
}

/// A number of units in seconds, rounded to a double where the unit is not the
/// second.
pub open spec fn in_seconds(grains: nat, factor: nat, divisor: nat) -> nat {
    if factor == 1 && divisor == 1 {
        grains
    } else {
        nearest_double(grains * factor, divisor)
    }
}

/// A number of seconds in nanoseconds, rounded to the nearest.
pub open spec fn in_nanos(grains: nat) -> nat {
    nearest_even(grains * 1_000_000_000, grains_per_one())
}

/// The length of time that a number and a unit write, in nanoseconds: the
/// number is read and brought to seconds in double precision. Absent for a
/// malformed number, an unknown unit, a value that reads as negative, and one
/// that no span holds.
pub open spec fn written_span(number: Seq<char>, unit: Seq<char>) -> Option<nat> {
    match unit_scale(unit) {
        None => None,
        Some((factor, divisor)) => if !is_decimal(number) || (number[0] == '-' && number_grains(
            number,
        ) > 0) {
            None
        } else {
            let nanos = in_nanos(in_seconds(number_grains(number), factor, divisor));
            if nanos < SPAN_LIMIT {
                Some(nanos)
            } else {
                None
            }
        },
    }
}

/// The length of time that a written offset denotes: a number, then a unit
/// suffix; a bare number counts seconds.
pub open spec fn offset_nanos(s: Seq<char>) -> Option<nat> {
    let t = trimmed(s);
    let i = first_letter(t);
    if i < t.len() {
        written_span(trimmed(t.subrange(0, i)), trimmed(t.skip(i)))
    } else {
        written_span(t, "s"@)
    }
}

proof fn ten_pow(n: nat)
    ensures
        pow(10, n) > 0,
        pow(10, n + 1) == 10 * pow(10, n),
        pow(10, 0) == 1,
{
    reveal(pow);
    lemma_pow_positive(10, n);
}

/// The value of two digit strings written one behind the other.
pub proof fn decimal_concat(a: Seq<char>, b: Seq<char>)
    requires
        all_digits(b),
    ensures
        decimal_value(a + b) == decimal_value(a) * pow(10, b.len()) + decimal_value(b),
    decreases b.len(),
{
    ten_pow(0);
    if b.len() == 0 {
        assert(a + b =~= a);
        assert(decimal_value(a) * pow(10, b.len()) == decimal_value(a)) by (nonlinear_arith)
            requires
                pow(10, b.len()) == 1,
        ;
    } else {
        let init = b.drop_last();
        assert(is_digit(b[b.len() - 1]));
        assert forall|i: int| 0 <= i < init.len() implies is_digit(#[trigger] init[i]) by {
            assert(init[i] == b[i]);
        }
        decimal_concat(a, init);
        assert((a + b).drop_last() =~= a + init);
        ten_pow(init.len());
        let v = decimal_value(a) as int;
        let p = pow(10, init.len());
        assert(10 * (v * p) == v * (10 * p)) by (nonlinear_arith);
    }
}

/// A number's sign and digits; absent where it is malformed.
fn split_decimal(number: &Vec<char>) -> (out: Option<(bool, Vec<char>, Vec<char>)>)
    ensures
        out is Some == is_decimal(number@),
        out matches Some(p) ==> p.0 == (number@[0] == '-') && p.1@ == whole_digits(number@)
            && p.2@ == fraction_digits(number@) && all_digits(p.1@) && all_digits(p.2@),
{
    let signed = number.len() > 0 && (number[0] == '+' || number[0] == '-');
    let start: usize = if signed {
        1
    } else {
        0
    };
    let body = slice(number, start, number.len());
    assert(body@ =~= unsigned_part(number@));
    let point = find_first(&body, '.');
    let whole = slice(&body, 0, point);
    let fraction = if point < body.len() {
        slice(&body, point + 1, body.len())
    } else {
        Vec::new()
    };
    assert(whole@ =~= whole_digits(number@));
    assert(fraction@ =~= fraction_digits(number@));
    if !digits_only(&whole) || !digits_only(&fraction) || (whole.len() == 0 && fraction.len()
        == 0) {
        return None;
    }
    let negative = number[0] == '-';
    Some((negative, whole, fraction))
}

/// The value of digits; absent where it reaches [`SPAN_LIMIT`].
fn value_of(digits: &Vec<char>) -> (out: Option<u128>)
    requires
        all_digits(digits@),
    ensures
        out is Some == (decimal_value(digits@) < SPAN_LIMIT),
        out matches Some(v) ==> v == decimal_value(digits@),
{
    let mut value: Option<u128> = Some(0);
    let mut i: usize = 0;
    assert(digits@.subrange(0, 0) =~= Seq::<char>::empty());
    while i < digits.len()
        invariant
            i <= digits.len(),
            all_digits(digits@),
            value is Some == (decimal_value(digits@.subrange(0, i as int)) < SPAN_LIMIT),
            value matches Some(v) ==> v == decimal_value(digits@.subrange(0, i as int)),
        decreases digits.len() - i,
    {
        let c = digits[i];
        assert(is_digit(digits@[i as int]));
        let d: u128 = c as u128 - '0' as u128;
        assert(digits@.subrange(0, i + 1).drop_last() =~= digits@.subrange(0, i as int));
        value = match value {
            None => None,
            Some(v) => {
                let next: u128 = v * 10 + d;
                if next < SPAN_LIMIT {
                    Some(next)
                } else {
                    None
                }
            },
        };
        i = i + 1;
    }
    assert(digits@.subrange(0, digits@.len() as int) =~= digits@);
    value
}

/// The digits as numbers.
fn numerals(digits: &Vec<char>) -> (out: Vec<u8>)
    requires
        all_digits(digits@),
    ensures
        out@.len() == digits@.len(),
        are_digits(out@),
        digits_value(out@) == decimal_value(digits@),
{
    let mut out: Vec<u8> = Vec::new();
    let mut i: usize = 0;
    while i < digits.len()
        invariant
            i <= digits.len(),
            all_digits(digits@),
            out@.len() == i,
            forall|k: int|
                0 <= k < i ==> (#[trigger] out@[k]) as int == digits@[k] as int - '0' as int
                    && out@[k] <= 9,
        decreases digits.len() - i,
    {
        let c = digits[i];
        assert(is_digit(digits@[i as int]));
        out.push((c as u32 - '0' as u32) as u8);
        i = i + 1;
    }
    proof {
        numerals_agree(out@, digits@);
    }
    out
}

/// Digits have one value, whichever end they are read from.
proof fn numerals_agree(numerals: Seq<u8>, digits: Seq<char>)
    requires
        all_digits(digits),
        numerals.len() == digits.len(),
        forall|k: int|
            0 <= k < digits.len() ==> (#[trigger] numerals[k]) as int == digits[k] as int
                - '0' as int,
    ensures
        digits_value(numerals) == decimal_value(digits),
    decreases digits.len(),
{
    if digits.len() > 0 {
        let head = seq![digits[0]];
        let tail = digits.drop_first();
        assert forall|k: int| 0 <= k < tail.len() implies is_digit(#[trigger] tail[k]) by {
            assert(tail[k] == digits[k + 1]);
            assert(is_digit(digits[k + 1]));
        }
        assert(is_digit(digits[0]));
        let rest = numerals.drop_first();
        assert forall|k: int| 0 <= k < rest.len() implies (#[trigger] rest[k]) as int
            == tail[k] as int - '0' as int by {
            assert(rest[k] == numerals[k + 1]);
        }
        numerals_agree(rest, tail);
        assert(head + tail =~= digits);
        decimal_concat(head, tail);
        assert(head.drop_last() =~= Seq::<char>::empty());
        assert(decimal_value(head.drop_last()) == 0);
        assert(decimal_value(head) == numerals[0]);
    }
}

/// Two to the power of `n`.
fn power_of_two(n: u32) -> (out: u128)
    requires
        n <= 100,
    ensures
        out == pow2(n as nat),
        out > 0,
{
    let mut out: u128 = 1;
    let mut i: u32 = 0;
    proof {
        lemma2_to64();
    }
    while i < n
        invariant
            i <= n <= 100,
            out == pow2(i as nat),
            out > 0,
        decreases n - i,
    {
        proof {
            lemma_pow2_unfold((i + 1) as nat);
            lemma2_to64();
            lemma2_to64_rest();
            lemma_pow2_adds(64, 36);
            if i < 100 {
                lemma_pow2_strictly_increases(i as nat, 100);
            }
        }
        out = 2 * out;
        i = i + 1;
    }
    out
}

/// A number of seconds in nanoseconds, where a span holds them.
fn nanos_of(seconds: Double) -> (out: Option<Span>)
    requires
        seconds.wf(),
    ensures
        out is Some == (in_nanos(seconds.grains()) < SPAN_LIMIT),
        out matches Some(s) ==> s.nanos == in_nanos(seconds.grains()),
{
    let k: u128 = seconds.significand as u128;
    let ghost g = grains_per_one();
    let ghost x = pow2(seconds.shift as nat);
    let ghost kk = k as nat;
    proof {
        lemma2_to64();
        lemma2_to64_rest();
        lemma_pow2_pos(GRAIN_SHIFT as nat);
    }
    if seconds.shift >= GRAIN_SHIFT {
        let up: u32 = seconds.shift - GRAIN_SHIFT;
        let ghost u = pow2(up as nat);
        proof {
            lemma_pow2_adds(GRAIN_SHIFT as nat, up as nat);
            assert(kk * x * 1_000_000_000 == (kk * u * 1_000_000_000) * g + 0) by (nonlinear_arith)
                requires
                    x == g * u,
            ;
            nearest_even_of_parts(kk * x * 1_000_000_000, g, kk * u * 1_000_000_000, 0);
        }
        if up >= 12 {
            proof {
                if up > 12 {
                    lemma_pow2_strictly_increases(12, up as nat);
                }
                assert(kk * u >= 0x10_0000_0000_0000 * 0x1000) by (nonlinear_arith)
                    requires
                        kk >= 0x10_0000_0000_0000,
                        u >= 0x1000,
                ;
            }
            return None;
        }
        let scale: u128 = power_of_two(up);
        proof {
            lemma_pow2_strictly_increases(up as nat, 12);
            assert(kk * u <= 0x20_0000_0000_0000 * 0x1000) by (nonlinear_arith)
                requires
                    kk <= 0x20_0000_0000_0000,
                    0 <= u <= 0x1000,
            ;
        }
        let nanos: u128 = k * scale * 1_000_000_000;
        if nanos < SPAN_LIMIT {
            Some(Span { nanos })
        } else {
            None
        }
    } else {
        let down: u32 = GRAIN_SHIFT - seconds.shift;
        let ghost d = pow2(down as nat);
        let num: u128 = k * 1_000_000_000;
        proof {
            lemma_pow2_adds(seconds.shift as nat, down as nat);
            lemma_pow2_pos(down as nat);
            assert((kk * x * 1_000_000_000) * d == num as nat * g) by (nonlinear_arith)
                requires
                    num == kk * 1_000_000_000,
                    g == x * d,
            ;
            nearest_even_of_ratio(kk * x * 1_000_000_000, g, num as nat, d);
        }
        if down > 100 {
            proof {
                lemma_pow2_adds(64, 36);
                lemma_pow2_strictly_increases(100, down as nat);
                assert(num == 0 * d + num);
                nearest_even_of_parts(num as nat, d, 0, num as nat);
            }
            return Some(Span { nanos: 0 });
        }
        let den: u128 = power_of_two(down);
        proof {
            lemma_fundamental_div_mod(num as int, den as int);
            assert(num / den <= num) by (nonlinear_arith)
                requires
                    den > 0,
            ;
            lemma_pow2_adds(64, 36);
            if down < 100 {
                lemma_pow2_strictly_increases(down as nat, 100);
            }
        }
        let q: u128 = num / den;
        let r: u128 = num % den;
        let nanos: u128 = if 2 * r > den || (2 * r == den && q % 2 == 1) {
            q + 1
        } else {
            q
        };
        Some(Span { nanos })
    }
}

/// The mantissa of a number, from its parts.
proof fn mantissa_of_parts(number: Seq<char>, digits: Seq<u8>)
    requires
        is_decimal(number),
        digits.len() == fraction_digits(number).len(),
        digits_value(digits) == decimal_value(fraction_digits(number)),
    ensures
        mantissa(number) == decimal_mantissa(decimal_value(whole_digits(number)), digits),
        number_grains(number) == decimal_grains(decimal_value(whole_digits(number)), digits),
{
    decimal_concat(whole_digits(number), fraction_digits(number));
    ten_pow(digits.len());
}

/// A number whose whole part no span holds is beyond every span in every unit.
proof fn long_numbers_are_refused(number: Seq<char>, factor: nat, divisor: nat)
    requires
        is_decimal(number),
        decimal_value(whole_digits(number)) >= SPAN_LIMIT,
        factor >= 1,
        1 <= divisor <= 1000,
    ensures
        in_nanos(in_seconds(number_grains(number), factor, divisor)) >= SPAN_LIMIT,
{
    let whole = decimal_value(whole_digits(number));
    let fraction = fraction_digits(number);
    let m = mantissa(number);
    let g = grains_per_one();
    let p = pow(10, fraction.len()) as nat;
    let limit = SPAN_LIMIT as nat;
    decimal_concat(whole_digits(number), fraction);
    ten_pow(fraction.len());
    lemma_pow2_pos(GRAIN_SHIFT as nat);
    let v = number_grains(number);
    let s = in_seconds(v, factor, divisor);
    let n = in_nanos(s);
    assert(m >= limit * p) by (nonlinear_arith)
        requires
            m >= whole * p,
            whole >= limit,
            p > 0,
    ;
    assert(m * g >= (limit * g) * p && m * g >= p) by (nonlinear_arith)
        requires
            m >= limit * p,
            g >= 1,
            p > 0,
            limit >= 1,
    ;
    nearest_double_is_near(m * g, p);
    assert(limit * g <= 2 * v) by (nonlinear_arith)
        requires
            (limit * g) * p <= 2 * (v * p),
            p > 0,
    ;
    assert(v >= 1000) by (nonlinear_arith)
        requires
            limit * g <= 2 * v,
            limit >= 2000,
            g >= 1,
    ;
    if !(factor == 1 && divisor == 1) {
        assert(v * factor >= v) by (nonlinear_arith)
            requires
                factor >= 1,
        ;
        nearest_double_is_near(v * factor, divisor);
        assert(s * divisor <= 1000 * s) by (nonlinear_arith)
            requires
                divisor <= 1000,
        ;
    }
    assert(limit * g <= 4000 * s);
    nearest_even_is_near(s * 1_000_000_000, g);
    if n < limit {
        assert(2 * (n * g) <= 2 * (limit * g) - 2 * g) by (nonlinear_arith)
            requires
                n + 1 <= limit,
                g >= 1,
        ;
        assert(limit * g >= g) by (nonlinear_arith)
            requires
                limit >= 1,
        ;
    }
}

/// The length of time of a number in a unit.
fn span_of(number: &Vec<char>, factor: u64, divisor: u64) -> (out: Option<Span>)
    requires
        1 <= factor <= 3600,
        1 <= divisor <= 1000,
    ensures
        ({
            let nanos = in_nanos(
                in_seconds(number_grains(number@), factor as nat, divisor as nat),
            );
            let valid = is_decimal(number@) && !(number@[0] == '-' && number_grains(number@) > 0);
            &&& out is Some == (valid && nanos < SPAN_LIMIT)
            &&& out matches Some(s) ==> s.nanos == nanos
        }),
{
    let (negative, whole, fraction) = match split_decimal(number) {
        None => {
            return None;
        },
        Some(parts) => parts,
    };
    match value_of(&whole) {
        None => {
            proof {
                long_numbers_are_refused(number@, factor as nat, divisor as nat);
            }
            None
        },
        Some(v) => {
            let digits = numerals(&fraction);
            proof {
                mantissa_of_parts(number@, digits@);
            }
            let value = round_decimal(v, digits);
            proof {
                lemma_pow2_pos(value.shift as nat);
                let (k, x) = (value.significand as int, pow2(value.shift as nat) as int);
                assert((k * x > 0) == (k > 0)) by (nonlinear_arith)
                    requires
                        k >= 0,
                        x > 0,
                ;
            }
            if negative && value.significand > 0 {
                return None;
            }
            if factor == 1 && divisor == 1 {
                nanos_of(value)
            } else {
                nanos_of(value.scaled(factor, divisor))
            }
        },
    }
}

fn digits_only(s: &Vec<char>) -> (out: bool)
    ensures
        out == all_digits(s@),
{
    let mut i: usize = 0;
    while i < s.len()
        invariant
            i <= s.len(),
            forall|k: int| 0 <= k < i ==> is_digit(#[trigger] s@[k]),
        decreases s.len() - i,
    {
        let c = s[i];
        if !('0' <= c && c <= '9') {
            assert(!is_digit(s@[i as int]));
            return false;
        }
        i = i + 1;
    }
    true
}

fn find_letter(s: &Vec<char>) -> (out: usize)
    ensures
        out == first_letter(s@),
        out <= s.len(),
{
    let mut i: usize = 0;
    assert(s@.skip(0) =~= s@);
    while i < s.len() && !(('a' <= s[i] && s[i] <= 'z') || ('A' <= s[i] && s[i] <= 'Z'))
        invariant
            i <= s.len(),
            first_letter(s@) == i + first_letter(s@.skip(i as int)),
        decreases s.len() - i,
    {
        assert(s@.skip(i as int).drop_first() =~= s@.skip(i + 1));
        i = i + 1;
    }
    i
}

fn span_in_unit(number: &Vec<char>, unit: &Vec<char>) -> (out: Option<Span>)
    ensures
        out is Some == written_span(number@, unit@) is Some,
        out matches Some(s) ==> s.nanos == written_span(number@, unit@)->0,
{
    if spells(unit, "ms") {
        span_of(number, 1, 1000)
    } else if spells(unit, "s") || spells(unit, "sec") || spells(unit, "secs") {
        span_of(number, 1, 1)
    } else if spells(unit, "m") || spells(unit, "min") || spells(unit, "mins") {
        span_of(number, 60, 1)
    } else if spells(unit, "h") || spells(unit, "hr") || spells(unit, "hrs") {
        span_of(number, 3600, 1)
    } else {
        None
    }
}

/// Reads a time offset such as `500ms`, `60s`, `3min` or `1.5h`; a bare
/// number counts seconds. Absent for malformed and negative values. The number
/// is read and brought to seconds in double precision, and the seconds are
/// rounded to the nearest nanosecond.
pub fn parse_offset(s: &str) -> (out: Option<Span>)
    ensures
        out is Some == offset_nanos(s@) is Some,
        out matches Some(d) ==> d.nanos == offset_nanos(s@)->0,
{
    let chars = chars_of(s);
    let t = trim(&chars);
    let i = find_letter(&t);
    if i < t.len() {
        let number = slice(&t, 0, i);
        let unit = slice(&t, i, t.len());
        assert(unit@ =~= t@.skip(i as int));
        span_in_unit(&trim(&number), &trim(&unit))
    } else {
        let seconds = chars_of("s");
        span_in_unit(&t, &seconds)
    }
}

/// Nothing but white space.
pub open spec fn all_white(s: Seq<char>) -> bool {
    forall|i: int| 0 <= i < s.len() ==> is_white(#[trigger] s[i])
}

/// Nothing but letters.
pub open spec fn all_letters(s: Seq<char>) -> bool {
    forall|i: int| 0 <= i < s.len() ==> is_letter(#[trigger] s[i])
}

/// Holds a letter nowhere and has no white space at either end.
spec fn is_number_like(s: Seq<char>) -> bool {
    &&& s.len() > 0
    &&& forall|i: int| 0 <= i < s.len() ==> !is_letter(#[trigger] s[i]) && !is_white(s[i])
}

proof fn leading_blanks_go(blanks: Seq<char>, s: Seq<char>)
    requires
        all_white(blanks),
        s.len() > 0,
        !is_white(s[0]),
    ensures
        trimmed_start(blanks + s) == s,
    decreases blanks.len(),
{
    let whole = blanks + s;
    if blanks.len() == 0 {
        assert(whole =~= s);
    } else {
        let rest = blanks.drop_first();
        assert forall|i: int| 0 <= i < rest.len() implies is_white(#[trigger] rest[i]) by {
            assert(rest[i] == blanks[i + 1]);
        }
        leading_blanks_go(rest, s);
        assert(is_white(blanks[0]));
        assert(whole.drop_first() =~= rest + s);
    }
}

proof fn trailing_blanks_go(s: Seq<char>, blanks: Seq<char>)
    requires
        all_white(blanks),
        s.len() > 0,
        !is_white(s.last()),
    ensures
        trimmed_end(s + blanks) == s,
    decreases blanks.len(),
{
    let whole = s + blanks;
    if blanks.len() == 0 {
        assert(whole =~= s);
    } else {
        let rest = blanks.drop_last();
        assert forall|i: int| 0 <= i < rest.len() implies is_white(#[trigger] rest[i]) by {
            assert(rest[i] == blanks[i]);
        }
        trailing_blanks_go(s, rest);
        assert(is_white(blanks[blanks.len() - 1]));
        assert(whole.drop_last() =~= s + rest);
    }
}

proof fn blanks_around_go(before: Seq<char>, s: Seq<char>, after: Seq<char>)
    requires
        all_white(before),
        all_white(after),
        s.len() > 0,
        !is_white(s[0]),
        !is_white(s.last()),
    ensures
        trimmed(before + s + after) == s,
{
    assert(before + s + after =~= before + (s + after));
    leading_blanks_go(before, s + after);
    trailing_blanks_go(s, after);
}

proof fn letters_start(s: Seq<char>, unit: Seq<char>)
    requires
        forall|i: int| 0 <= i < s.len() ==> !is_letter(#[trigger] s[i]),
        all_letters(unit),
    ensures
        first_letter(s + unit) == s.len(),
    decreases s.len(),
{
    let whole = s + unit;
    if s.len() == 0 {
        if unit.len() > 0 {
            assert(is_letter(unit[0]));
        }
    } else {
        let rest = s.drop_first();
        assert forall|i: int| 0 <= i < rest.len() implies !is_letter(#[trigger] rest[i]) by {
            assert(rest[i] == s[i + 1]);
        }
        letters_start(rest, unit);
        assert(!is_letter(s[0]));
        assert(whole.drop_first() =~= rest + unit);
    }
}

proof fn first_index_finds(s: Seq<char>, c: char)
    ensures
        0 <= first_index(s, c) <= s.len(),
        first_index(s, c) < s.len() ==> s[first_index(s, c)] == c,
    decreases s.len(),
{
    if s.len() > 0 && s[0] != c {
        first_index_finds(s.drop_first(), c);
    }
}

proof fn decimal_is_number_like(n: Seq<char>)
    requires
        is_decimal(n),
    ensures
        is_number_like(n),
{
    let body = unsigned_part(n);
    let signs = n.len() - body.len();
    let point = first_index(body, '.');
    first_index_finds(body, '.');
    assert forall|i: int| 0 <= i < n.len() implies !is_letter(#[trigger] n[i]) && !is_white(
        n[i],
    ) by {
        if i >= signs {
            let k = i - signs;
            assert(n[i] == body[k]);
            if k < point {
                assert(is_digit(whole_digits(n)[k]));
            } else if k > point {
                assert(is_digit(fraction_digits(n)[k - point - 1]));
            }
        }
    }
}

/// Blanks around an offset, or between its number and its unit, change
/// nothing; without a unit the number counts seconds.
pub proof fn blanks_change_nothing(
    before: Seq<char>,
    number: Seq<char>,
    gap: Seq<char>,
    unit: Seq<char>,
    after: Seq<char>,
)
    requires
        all_white(before),
        all_white(gap),
        all_white(after),
        is_decimal(number),
        all_letters(unit),
    ensures
        unit.len() > 0 ==> offset_nanos(before + (number + gap + unit) + after) == written_span(
            number,
            unit,
        ),
        unit.len() > 0 ==> offset_nanos(number + unit) == written_span(number, unit),
        offset_nanos(before + number + after) == written_span(number, "s"@),
        offset_nanos(number) == written_span(number, "s"@),
{
    let none = Seq::<char>::empty();
    decimal_is_number_like(number);
    assert(!is_white(number[0]) && !is_white(number[number.len() - 1]));
    bare_number_counts(before, number, after);
    bare_number_counts(none, number, none);
    assert(none + number + none =~= number);
    if unit.len() > 0 {
        unit_counts(before, number, gap, unit, after);
        unit_counts(none, number, none, unit, none);
        assert(none + (number + none + unit) + none =~= number + unit);
    }
}

proof fn bare_number_counts(before: Seq<char>, number: Seq<char>, after: Seq<char>)
    requires
        all_white(before),
        all_white(after),
        is_number_like(number),
    ensures
        offset_nanos(before + number + after) == written_span(number, "s"@),
{
    assert(!is_white(number[0]) && !is_white(number[number.len() - 1]));
    blanks_around_go(before, number, after);
    letters_start(number, Seq::empty());
    assert(number + Seq::<char>::empty() =~= number);
}

proof fn unit_counts(
    before: Seq<char>,
    number: Seq<char>,
    gap: Seq<char>,
    unit: Seq<char>,
    after: Seq<char>,
)
    requires
        all_white(before),
        all_white(gap),
        all_white(after),
        is_number_like(number),
        all_letters(unit),
        unit.len() > 0,
    ensures
        offset_nanos(before + (number + gap + unit) + after) == written_span(number, unit),
{
    let none = Seq::<char>::empty();
    let lead = number + gap;
    let t = lead + unit;
    assert(!is_white(number[0]) && !is_white(number[number.len() - 1]));
    assert(is_letter(unit[0]) && is_letter(unit[unit.len() - 1]));
    assert(t[0] == number[0] && t.last() == unit.last());
    blanks_around_go(before, t, after);
    assert forall|i: int| 0 <= i < lead.len() implies !is_letter(#[trigger] lead[i]) by {
        if i < number.len() {
            assert(lead[i] == number[i]);
        } else {
            assert(is_white(gap[i - number.len()]));
        }
    }
    letters_start(lead, unit);
    assert(t.subrange(0, lead.len() as int) =~= none + number + gap);
    assert(t.skip(lead.len() as int) =~= none + unit + none);
    blanks_around_go(none, number, gap);
    blanks_around_go(none, unit, none);
}

/// Unit suffixes that mean the same read the same, and a bare number reads as
/// seconds.
pub proof fn unit_synonyms_agree(number: Seq<char>)
    requires
        is_decimal(number),
    ensures
        offset_nanos(number) == offset_nanos(number + "s"@),
        offset_nanos(number) == offset_nanos(number + "sec"@),
        offset_nanos(number) == offset_nanos(number + "secs"@),
        offset_nanos(number + "m"@) == offset_nanos(number + "min"@),
        offset_nanos(number + "m"@) == offset_nanos(number + "mins"@),
        offset_nanos(number + "h"@) == offset_nanos(number + "hr"@),
        offset_nanos(number + "h"@) == offset_nanos(number + "hrs"@),
{
    unit_words_are_letters();
    equal_units_agree(number, "s"@, "sec"@);
    equal_units_agree(number, "s"@, "secs"@);
    equal_units_agree(number, "m"@, "min"@);
    equal_units_agree(number, "m"@, "mins"@);
    equal_units_agree(number, "h"@, "hr"@);
    equal_units_agree(number, "h"@, "hrs"@);
}

proof fn equal_units_agree(number: Seq<char>, a: Seq<char>, b: Seq<char>)
    requires
        is_decimal(number),
        all_letters(a),
        all_letters(b),
        a.len() > 0,
        b.len() > 0,
        unit_scale(a) == unit_scale(b),
    ensures
        offset_nanos(number + a) == offset_nanos(number + b),
        offset_nanos(number + a) == written_span(number, a),
        offset_nanos(number) == written_span(number, "s"@),
{
    let none = Seq::<char>::empty();
    blanks_change_nothing(none, number, none, a, none);
    blanks_change_nothing(none, number, none, b, none);
}

proof fn unit_words_are_letters()
    ensures
        all_letters("s"@) && all_letters("sec"@) && all_letters("secs"@),
        all_letters("m"@) && all_letters("min"@) && all_letters("mins"@),
        all_letters("h"@) && all_letters("hr"@) && all_letters("hrs"@),
        "s"@.len() > 0 && "sec"@.len() > 0 && "secs"@.len() > 0,
        "m"@.len() > 0 && "min"@.len() > 0 && "mins"@.len() > 0,
        "h"@.len() > 0 && "hr"@.len() > 0 && "hrs"@.len() > 0,
        unit_scale("s"@) == unit_scale("sec"@),
        unit_scale("s"@) == unit_scale("secs"@),
        unit_scale("m"@) == unit_scale("min"@),
        unit_scale("m"@) == unit_scale("mins"@),
        unit_scale("h"@) == unit_scale("hr"@),
        unit_scale("h"@) == unit_scale("hrs"@),
{
    reveal_strlit("ms");
    reveal_strlit("s");
    reveal_strlit("sec");
    reveal_strlit("secs");
    reveal_strlit("m");
    reveal_strlit("min");
    reveal_strlit("mins");
    reveal_strlit("h");
    reveal_strlit("hr");
    reveal_strlit("hrs");
    assert("ms"@.len() == 2 && "s"@.len() == 1 && "sec"@.len() == 3 && "secs"@.len() == 4);
    assert("m"@.len() == 1 && "min"@.len() == 3 && "mins"@.len() == 4);
    assert("h"@.len() == 1 && "hr"@.len() == 2 && "hrs"@.len() == 3);
    assert("ms"@[1] == 's' && "hr"@[1] == 'r');
    assert("s"@[0] == 's' && "m"@[0] == 'm' && "h"@[0] == 'h');
    assert("sec"@[0] == 's' && "min"@[0] == 'm' && "hrs"@[0] == 'h');
    assert("secs"@[0] == 's' && "mins"@[0] == 'm');
}

/// Every number that is not negative and below two to the power of 50 is read,
/// in every unit.
pub proof fn everyday_offsets_are_read(number: Seq<char>, unit: Seq<char>)
    requires
        is_decimal(number),
        number[0] != '-',
        decimal_value(whole_digits(number)) < 0x4_0000_0000_0000,
        unit_scale(unit) is Some,
    ensures
        written_span(number, unit) is Some,
{
    let (factor, divisor) = unit_scale(unit)->0;
    let whole = decimal_value(whole_digits(number));
    let fraction = fraction_digits(number);
    let m = mantissa(number);
    let g = grains_per_one();
    let p = pow(10, fraction.len()) as nat;
    let v = number_grains(number);
    let s = in_seconds(v, factor, divisor);
    let n = in_nanos(s);
    decimal_concat(whole_digits(number), fraction);
    ten_pow(fraction.len());
    decimal_is_bounded(fraction);
    lemma_pow2_pos(GRAIN_SHIFT as nat);
    assert(m * g <= (0x4_0000_0000_0000 * g) * p) by (nonlinear_arith)
        requires
            m < whole * p + p,
            whole + 1 <= 0x4_0000_0000_0000,
            p > 0,
            g > 0,
    ;
    if m * g >= p {
        nearest_double_is_near(m * g, p);
        assert(v <= 2 * (0x4_0000_0000_0000 * g)) by (nonlinear_arith)
            requires
                v * p <= 2 * ((0x4_0000_0000_0000 * g) * p),
                p > 0,
        ;
    } else {
        nearest_even_is_near(m * g, p);
        assert(v <= 1) by (nonlinear_arith)
            requires
                2 * (v * p) < 3 * p,
                p > 0,
        ;
    }
    assert(v <= 0x8_0000_0000_0000 * g);
    if !(factor == 1 && divisor == 1) {
        assert(v * factor <= 3600 * v) by (nonlinear_arith)
            requires
                factor <= 3600,
        ;
        if v * factor >= divisor {
            nearest_double_is_near(v * factor, divisor);
            assert(s <= s * divisor) by (nonlinear_arith)
                requires
                    divisor >= 1,
            ;
        } else {
            nearest_even_is_near(v * factor, divisor);
            assert(s <= 1) by (nonlinear_arith)
                requires
                    2 * (s * divisor) < 3 * divisor,
                    divisor > 0,
            ;
        }
    }
    assert(s <= 16_212_958_658_533_785_600 * g);
    nearest_even_is_near(s * 1_000_000_000, g);
    let top: nat = 16_212_958_658_533_785_600_000_000_000;
    if n > top {
        assert(n * g >= top * g + g) by (nonlinear_arith)
            requires
                n >= top + 1,
        ;
    }
}

proof fn decimal_is_bounded(digits: Seq<char>)
    requires
        all_digits(digits),
    ensures
        decimal_value(digits) < pow(10, digits.len()),
    decreases digits.len(),
{
    ten_pow(0);
    if digits.len() > 0 {
        let init = digits.drop_last();
        assert(is_digit(digits[digits.len() - 1]));
        assert forall|i: int| 0 <= i < init.len() implies is_digit(#[trigger] init[i]) by {
            assert(init[i] == digits[i]);
        }
        decimal_is_bounded(init);
        ten_pow(init.len());
    }
}

/// A number that is a whole number of binary parts, and few enough, loses
/// nothing to double precision: `n` parts of which two to the power of `parts`
/// make one. With no such parts it is a whole number of seconds, minutes or
/// hours, and its span is exact.
pub proof fn binary_offsets_are_exact(number: Seq<char>, n: nat, parts: nat)
    requires
        is_decimal(number),
        number[0] != '-',
        mantissa(number) * pow2(parts) == n * pow(10, fraction_digits(number).len()),
        parts <= GRAIN_SHIFT,
        3600 * n <= 0x20_0000_0000_0000,
    ensures
        written_span(number, "s"@) == Some(nearest_even(n * 1_000_000_000, pow2(parts))),
        written_span(number, "m"@) == Some(nearest_even(60 * n * 1_000_000_000, pow2(parts))),
        written_span(number, "h"@) == Some(nearest_even(3600 * n * 1_000_000_000, pow2(parts))),
        parts == 0 ==> written_span(number, "s"@) == Some(n * 1_000_000_000),
        parts == 0 ==> written_span(number, "m"@) == Some(n * 60_000_000_000),
        parts == 0 ==> written_span(number, "h"@) == Some(n * 3_600_000_000_000),
{
    units_differ();
    let p = pow(10, fraction_digits(number).len()) as nat;
    ten_pow(fraction_digits(number).len());
    let m = mantissa(number);
    let g = grains_per_one();
    let q = pow2(parts);
    let e = (GRAIN_SHIFT - parts) as nat;
    let x = pow2(e);
    lemma_pow2_pos(parts);
    lemma_pow2_pos(e);
    lemma_pow2_adds(parts, e);
    assert(m * g == n * x * p) by (nonlinear_arith)
        requires
            m * q == n * p,
            g == q * x,
    ;
    doubles_stay(m * g, p, n, e);
    let v = n * x;
    assert(number_grains(number) == v);
    assert(v * 60 == (60 * n) * x * 1 && v * 3600 == (3600 * n) * x * 1) by (nonlinear_arith)
        requires
            v == n * x,
    ;
    doubles_stay(v * 60, 1, 60 * n, e);
    doubles_stay(v * 3600, 1, 3600 * n, e);
    exact_nanos(n, parts);
    exact_nanos(60 * n, parts);
    exact_nanos(3600 * n, parts);
}

/// The nanoseconds of `n` binary parts of a second.
proof fn exact_nanos(n: nat, parts: nat)
    requires
        parts <= GRAIN_SHIFT,
        n <= 0x20_0000_0000_0000,
    ensures
        in_nanos(n * pow2((GRAIN_SHIFT - parts) as nat)) == nearest_even(
            n * 1_000_000_000,
            pow2(parts),
        ),
        nearest_even(n * 1_000_000_000, pow2(parts)) < SPAN_LIMIT,
        parts == 0 ==> nearest_even(n * 1_000_000_000, pow2(parts)) == n * 1_000_000_000,
{
    let q = pow2(parts);
    let e = (GRAIN_SHIFT - parts) as nat;
    let x = pow2(e);
    let g = grains_per_one();
    lemma_pow2_pos(parts);
    lemma_pow2_pos(GRAIN_SHIFT as nat);
    lemma_pow2_adds(parts, e);
    assert((n * x * 1_000_000_000) * q == (n * 1_000_000_000) * g) by (nonlinear_arith)
        requires
            g == q * x,
    ;
    nearest_even_of_ratio(n * x * 1_000_000_000, g, n * 1_000_000_000, q);
    nearest_even_is_near(n * 1_000_000_000, q);
    let k = nearest_even(n * 1_000_000_000, q);
    assert(k <= n * 1_000_000_000 + 1) by (nonlinear_arith)
        requires
            2 * (k * q) <= 2 * (n * 1_000_000_000) + q,
            q >= 1,
    ;
    if parts == 0 {
        lemma2_to64();
        nearest_even_of_parts(n * 1_000_000_000, 1, n * 1_000_000_000, 0);
    }
}

/// A whole number of milliseconds below two to the power of 32 is exact,
/// although a thousandth is no double.
pub proof fn whole_millis_are_exact(number: Seq<char>, n: nat)
    requires
        is_decimal(number),
        number[0] != '-',
        mantissa(number) == n * pow(10, fraction_digits(number).len()),
        n <= 0x1_0000_0000,
    ensures
        written_span(number, "ms"@) == Some(n * 1_000_000),
{
    units_differ();
    let p = pow(10, fraction_digits(number).len()) as nat;
    ten_pow(fraction_digits(number).len());
    let g = grains_per_one();
    assert(mantissa(number) * g == n * g * p) by (nonlinear_arith)
        requires
            mantissa(number) == n * p,
    ;
    doubles_stay(mantissa(number) * g, p, n, GRAIN_SHIFT as nat);
    let v = n * g;
    let w = nearest_double(v * 1, 1000);
    lemma2_to64();
    lemma2_to64_rest();
    lemma_pow2_adds(63, (GRAIN_SHIFT - 63) as nat);
    lemma_pow2_pos((GRAIN_SHIFT - 63) as nat);
    let x = pow2((GRAIN_SHIFT - 63) as nat);
    assert(g >= 0x20_0000_0000_0000 * 1000) by (nonlinear_arith)
        requires
            g == 0x8000_0000_0000_0000 * x,
            x >= 1,
    ;
    if n == 0 {
        assert(v == 0) by (nonlinear_arith)
            requires
                v == n * g,
                n == 0,
        ;
        nearest_even_of_parts(0, 1000, 0, 0);
        nearest_even_of_parts(0, g, 0, 0);
    } else {
        assert(v >= g) by (nonlinear_arith)
            requires
                v == n * g,
                n >= 1,
        ;
        nearest_double_is_precise(v, 1000);
        assert(0x1_0000_0000 * g >= v) by (nonlinear_arith)
            requires
                v == n * g,
                n <= 0x1_0000_0000,
        ;
        assert((n * 1_000_000) * g == 1_000_000 * v) by (nonlinear_arith)
            requires
                v == n * g,
        ;
        nearest_even_of_near(w * 1_000_000_000, g, n * 1_000_000);
    }
}

/// The suffixes that mean different things are different texts.
proof fn units_differ()
    ensures
        unit_scale("ms"@) == Some((1nat, 1000nat)),
        unit_scale("s"@) == Some((1nat, 1nat)),
        unit_scale("m"@) == Some((60nat, 1nat)),
        unit_scale("h"@) == Some((3600nat, 1nat)),
{
    reveal_strlit("ms");
    reveal_strlit("s");
    reveal_strlit("sec");
    reveal_strlit("secs");
    reveal_strlit("m");
    reveal_strlit("min");
    reveal_strlit("mins");
    reveal_strlit("h");
    reveal_strlit("hr");
    reveal_strlit("hrs");
    assert("ms"@.len() == 2 && "s"@.len() == 1 && "sec"@.len() == 3 && "secs"@.len() == 4);
    assert("m"@.len() == 1 && "min"@.len() == 3 && "mins"@.len() == 4);
    assert("h"@.len() == 1 && "hr"@.len() == 2 && "hrs"@.len() == 3);
    assert("ms"@[0] == 'm' && "ms"@[1] == 's' && "hr"@[1] == 'r');
    assert("s"@[0] == 's' && "m"@[0] == 'm' && "h"@[0] == 'h');
}

/// A time of day counts the seconds since midnight, sixty to the minute and
/// sixty minutes to the hour; an hour or a minute too large is refused.
pub proof fn times_count_from_midnight(h: u64, m: u64)
    ensures
        h < 24 && m < 60 ==> time_of_day(
            decimal_text(h as nat) + seq![':'] + decimal_text(m as nat),
        ) == Some(3600 * h + 60 * m),
        h >= 24 || m >= 60 ==> time_of_day(
            decimal_text(h as nat) + seq![':'] + decimal_text(m as nat),
        ) is None,
        time_of_day(decimal_text(h as nat)) is None,
{
    let a = decimal_text(h as nat);
    let b = decimal_text(m as nat);
    let t = a + seq![':'] + b;
    decimal_round_trip(h as nat);
    decimal_round_trip(m as nat);
    decimal_text_parses(h);
    decimal_text_parses(m);
    assert(is_digit(a[0]) && is_digit(a.last()) && is_digit(b[0]) && is_digit(b.last()));
    assert(t[0] == a[0] && t.last() == b.last());
    let none = Seq::<char>::empty();
    blanks_around_go(none, t, none);
    blanks_around_go(none, a, none);
    blanks_around_go(none, b, none);
    assert(none + t + none =~= t);
    assert(none + a + none =~= a);
    assert(none + b + none =~= b);
    assert forall|i: int| 0 <= i < a.len() implies #[trigger] a[i] != ':' by {
        assert(is_digit(a[i]));
    }
    first_index_behind(a, ':', b);
    first_index_nowhere(a, ':');
    assert(t.subrange(0, a.len() as int) =~= a);
    assert(t.skip(a.len() as int + 1) =~= b);
}

proof fn first_index_behind(s: Seq<char>, c: char, rest: Seq<char>)
    requires
        forall|i: int| 0 <= i < s.len() ==> #[trigger] s[i] != c,
    ensures
        first_index(s + seq![c] + rest, c) == s.len(),
    decreases s.len(),
{
    let all = s + seq![c] + rest;
    if s.len() > 0 {
        let tail = s.drop_first();
        assert forall|i: int| 0 <= i < tail.len() implies #[trigger] tail[i] != c by {
            assert(tail[i] == s[i + 1]);
        }
        first_index_behind(tail, c, rest);
        assert(all[0] == s[0]);
        assert(all.drop_first() =~= tail + seq![c] + rest);
    } else {
        assert(all[0] == c);
    }
}

proof fn first_index_nowhere(s: Seq<char>, c: char)
    requires
        forall|i: int| 0 <= i < s.len() ==> #[trigger] s[i] != c,
    ensures
        first_index(s, c) == s.len(),
    decreases s.len(),
{
    if s.len() > 0 {
        let tail = s.drop_first();
        assert forall|i: int| 0 <= i < tail.len() implies #[trigger] tail[i] != c by {
            assert(tail[i] == s[i + 1]);
        }
        first_index_nowhere(tail, c);
    }
}

/// Without a simulated clock the time is the wall's, however much has elapsed;
/// with one it starts at the base and the wall does not matter.
pub proof fn time_comes_from_its_source(base: Moment, wall: Moment, other: Moment, elapsed: Span)
    ensures
        NowSource::Wall.spec_now(wall, elapsed) == wall.nanos,
        (NowSource::Sim { base }).spec_now(wall, Span { nanos: 0 }) == base.nanos,
        (NowSource::Sim { base }).spec_now(wall, elapsed) == (NowSource::Sim { base }).spec_now(
            other,
            elapsed,
        ),
{
}

} // verus!
