//! Rounding to double precision, on whole numbers.
//!
//! Every non-negative double is a whole number of grains, a grain being the
//! smallest double, two to the power of -1074. A [`Double`] holds one by its
//! significand and the power of two that scales it.

use vstd::arithmetic::div_mod::{lemma_fundamental_div_mod, lemma_fundamental_div_mod_converse};
use vstd::arithmetic::power::{lemma_pow_positive, pow};
use vstd::arithmetic::power2::{lemma_pow2_adds, lemma_pow2_pos, lemma_pow2_unfold, pow2};
use vstd::prelude::*;

verus! {

/// Two to the power of 53: a significand is at most that.
pub const SIGNIFICANDS: u64 = 0x20_0000_0000_0000;

/// The power of two that makes one out of grains.
pub const GRAIN_SHIFT: u32 = 1074;

/// How many grains make one.
pub open spec fn grains_per_one() -> nat {
    pow2(GRAIN_SHIFT as nat)
}

/// `num / den` rounded to the nearest integer, ties to the even one.
pub open spec fn nearest_even(num: nat, den: nat) -> nat {
    let q = num / den;
    let r = num % den;
    if 2 * r > den || (2 * r == den && q % 2 == 1) {
        q + 1
    } else {
        q
    }
}

/// The double nearest to `num / den` grains, ties to the one with the even
/// significand; in grains, and without an upper limit. Up to two to the power
/// of 53 grains every whole number is a double, and beyond that the doubles are
/// spaced twice as wide with each power of two.
pub open spec fn nearest_double(num: nat, den: nat) -> nat
    decreases num - den,
{
    if den == 0 || num < SIGNIFICANDS * den {
        nearest_even(num, den)
    } else {
        2 * nearest_double(num, 2 * den)
    }
}

proof fn scaled_less(a: int, b: int, c: int)
    requires
        c > 0,
    ensures
        (a * c < b * c) == (a < b),
        (a * c == b * c) == (a == b),
{
    assert((a * c < b * c) == (a < b)) by (nonlinear_arith)
        requires
            c > 0,
    ;
    assert((a * c == b * c) == (a == b)) by (nonlinear_arith)
        requires
            c > 0,
    ;
}

/// What a division with remainder rounds to.
pub(crate) proof fn nearest_even_of_parts(num: nat, den: nat, q: nat, r: nat)
    requires
        num == q * den + r,
        r < den,
    ensures
        nearest_even(num, den) == (if 2 * r > den || (2 * r == den && q % 2 == 1) {
            q + 1
        } else {
            q
        }),
{
    lemma_fundamental_div_mod_converse(num as int, den as int, q as int, r as int);
}

/// Rounding depends on the ratio alone.
pub(crate) proof fn nearest_even_of_ratio(num: nat, den: nat, a: nat, b: nat)
    requires
        den > 0,
        b > 0,
        num * b == a * den,
    ensures
        nearest_even(num, den) == nearest_even(a, b),
{
    let q = a / b;
    let r = a % b;
    lemma_fundamental_div_mod(a as int, b as int);
    let rest = num - q * den;
    assert(rest * b == r * den) by (nonlinear_arith)
        requires
            num * b == a * den,
            a == b * q + r,
            rest == num - q * den,
    ;
    assert(0 <= r * den < b * den) by (nonlinear_arith)
        requires
            0 <= r < b,
            den > 0,
    ;
    assert(b * den == den * b) by (nonlinear_arith);
    assert(0 * b == 0);
    scaled_less(rest, den as int, b as int);
    scaled_less(0, rest, b as int);
    scaled_less(rest, 0, b as int);
    assert(0 <= rest < den);
    assert((2 * rest) * b == (2 * r) * den) by (nonlinear_arith)
        requires
            rest * b == r * den,
    ;
    scaled_less(2 * rest, den as int, b as int);
    scaled_less(2 * r as int, b as int, den as int);
    nearest_even_of_parts(num, den, q, rest as nat);
}

/// The nearest integer is at most half a unit off.
pub(crate) proof fn nearest_even_is_near(num: nat, den: nat)
    requires
        den > 0,
    ensures
        2 * num - den <= 2 * (nearest_even(num, den) * den) <= 2 * num + den,
{
    let q = num / den;
    let r = num % den;
    lemma_fundamental_div_mod(num as int, den as int);
    assert((q + 1) * den == q * den + den) by (nonlinear_arith);
    assert(q * den == den * q) by (nonlinear_arith);
}

/// What is less than half a unit from a whole number rounds to it.
pub(crate) proof fn nearest_even_of_near(num: nat, den: nat, whole: nat)
    requires
        2 * num < 2 * (whole * den) + den,
        2 * (whole * den) < 2 * num + den,
    ensures
        nearest_even(num, den) == whole,
{
    if num >= whole * den {
        nearest_even_of_parts(num, den, whole, (num - whole * den) as nat);
    } else {
        let r = num - (whole - 1) * den;
        assert((whole - 1) * den == whole * den - den) by (nonlinear_arith);
        assert(whole > 0) by {
            if whole == 0 {
                assert(whole * den == 0) by (nonlinear_arith)
                    requires
                        whole == 0,
                ;
            }
        }
        nearest_even_of_parts(num, den, (whole - 1) as nat, r as nat);
    }
}

/// Rounding `a / b`, which lies in the range of a significand, and scaling back
/// gives the nearest double of the scaled value.
pub(crate) proof fn nearest_double_of_scaled(num: nat, den: nat, a: nat, b: nat, e: nat)
    requires
        den > 0,
        b > 0,
        num * b == a * den * pow2(e),
        a < SIGNIFICANDS * b,
        e > 0 ==> SIGNIFICANDS * b <= 2 * a,
    ensures
        nearest_double(num, den) == nearest_even(a, b) * pow2(e),
    decreases e,
{
    lemma_pow2_pos(e);
    let limit = SIGNIFICANDS as int;
    if e == 0 {
        reveal(pow2);
        vstd::arithmetic::power::lemma_pow0(2);
        assert(pow2(0) == 1);
        assert(a * den * pow2(e) == a * den) by (nonlinear_arith)
            requires
                pow2(e) == 1,
        ;
        assert(a * den < limit * den * b) by (nonlinear_arith)
            requires
                a < limit * b,
                den > 0,
        ;
        assert(limit * den * b == (limit * den) * b);
        scaled_less(num as int, limit * den, b as int);
        nearest_even_of_ratio(num, den, a, b);
        assert(nearest_even(a, b) * pow2(e) == nearest_even(a, b)) by (nonlinear_arith)
            requires
                pow2(e) == 1,
        ;
    } else {
        let half = pow2((e - 1) as nat);
        lemma_pow2_unfold(e);
        lemma_pow2_pos((e - 1) as nat);
        assert(pow2(e) == 2 * half);
        assert(a * den * pow2(e) == a * (2 * den) * half) by (nonlinear_arith)
            requires
                pow2(e) == 2 * half,
        ;
        assert((limit * den) * b <= num * b) by (nonlinear_arith)
            requires
                num * b == a * (2 * den) * half,
                limit * b <= 2 * a,
                half >= 1,
                den > 0,
                a >= 0,
        ;
        scaled_less(num as int, limit * den, b as int);
        nearest_double_of_scaled(num, 2 * den, a, b, (e - 1) as nat);
        let k = nearest_even(a, b);
        assert(2 * (k * half) == k * pow2(e)) by (nonlinear_arith)
            requires
                pow2(e) == 2 * half,
        ;
    }
}

/// A value of at least one grain loses no more than half when it is rounded,
/// and gains no more than itself.
pub(crate) proof fn nearest_double_is_near(num: nat, den: nat)
    requires
        0 < den <= num,
    ensures
        num <= 2 * (nearest_double(num, den) * den),
        nearest_double(num, den) * den <= 2 * num,
    decreases num - den,
{
    if num < SIGNIFICANDS * den {
        nearest_even_is_near(num, den);
    } else {
        nearest_double_is_near(num, 2 * den);
        let k = nearest_double(num, 2 * den);
        assert(k * (2 * den) == (2 * k) * den) by (nonlinear_arith);
    }
}

/// A value that fills a significand is off by no more than its part in two to
/// the power of 53.
pub(crate) proof fn nearest_double_is_precise(num: nat, den: nat)
    requires
        den > 0,
        SIGNIFICANDS * den <= 2 * num,
    ensures
        SIGNIFICANDS * (nearest_double(num, den) * den - num) <= num,
        SIGNIFICANDS * (num - nearest_double(num, den) * den) <= num,
    decreases num - den,
{
    if num < SIGNIFICANDS * den {
        nearest_even_is_near(num, den);
    } else {
        nearest_double_is_precise(num, 2 * den);
        let k = nearest_double(num, 2 * den);
        assert(k * (2 * den) == (2 * k) * den) by (nonlinear_arith);
    }
}

/// A double rounds to itself.
pub proof fn doubles_stay(num: nat, den: nat, k: nat, e: nat)
    requires
        den > 0,
        k <= SIGNIFICANDS,
        num == k * pow2(e) * den,
    ensures
        nearest_double(num, den) == k * pow2(e),
    decreases e, k,
{
    let v = k * pow2(e);
    if num < SIGNIFICANDS * den {
        nearest_even_of_parts(num, den, v, 0);
    } else if e > 0 {
        let half = pow2((e - 1) as nat);
        lemma_pow2_unfold(e);
        assert(k * pow2(e) * den == k * half * (2 * den)) by (nonlinear_arith)
            requires
                pow2(e) == 2 * half,
        ;
        assert(2 * (k * half) == k * pow2(e)) by (nonlinear_arith)
            requires
                pow2(e) == 2 * half,
        ;
        doubles_stay(num, 2 * den, k, (e - 1) as nat);
    } else {
        reveal(pow2);
        vstd::arithmetic::power::lemma_pow0(2);
        assert(v == k) by (nonlinear_arith)
            requires
                v == k * pow2(e),
                pow2(e) == 1,
        ;
        scaled_less(k as int, SIGNIFICANDS as int, den as int);
        assert(k == SIGNIFICANDS);
        let m = (k / 2) as nat;
        assert(m * pow2(e) * (2 * den) == num) by (nonlinear_arith)
            requires
                num == k * den,
                k == 2 * m,
                pow2(e) == 1,
        ;
        assert(m * pow2(e) == m) by (nonlinear_arith)
            requires
                pow2(e) == 1,
        ;
        doubles_stay(num, 2 * den, m, e);
    }
}

/// A non-negative double: `significand` times two to the power of `shift`
/// grains.
#[derive(Clone, Copy, Debug, PartialEq, Eq, Structural)]
pub struct Double {
    pub significand: u64,
    pub shift: u32,
}

impl Double {
    /// The significand is full unless the double is among the smallest.
    pub open spec fn wf(self) -> bool {
        &&& self.significand <= SIGNIFICANDS
        &&& self.shift > 0 ==> SIGNIFICANDS <= 2 * self.significand
    }

    /// In grains.
    pub open spec fn grains(self) -> nat {
        self.significand as nat * pow2(self.shift as nat)
    }

    /// `self * times / over`, rounded.
    pub fn scaled(self, times: u64, over: u64) -> (out: Double)
        requires
            self.wf(),
            self.shift <= 2000,
            1 <= times <= 3600,
            1 <= over <= 1000,
        ensures
            out.wf(),
            out.grains() == nearest_double(self.grains() * times as nat, over as nat),
    {
        let limit: u128 = SIGNIFICANDS as u128;
        assert(0 <= self.significand * times <= SIGNIFICANDS * 3600) by (nonlinear_arith)
            requires
                0 <= self.significand <= SIGNIFICANDS,
                1 <= times <= 3600,
        ;
        let start: u128 = self.significand as u128 * times as u128;
        let mut num: u128 = start;
        let mut den: u128 = over as u128;
        let mut up: u32 = 0;
        proof {
            one_is_pow2();
        }
        while num >= limit * den
            invariant
                limit == SIGNIFICANDS,
                num == start <= SIGNIFICANDS * 3600,
                1 <= over <= 1000,
                over <= den,
                den == over * pow2(up as nat),
                den <= 7200,
                up > 0 ==> limit * den <= 2 * num,
                den > up,
            decreases 7200 - den,
        {
            proof {
                lemma_pow2_unfold((up + 1) as nat);
                assert(2 * (over * pow2(up as nat)) == over * pow2((up + 1) as nat))
                    by (nonlinear_arith)
                    requires
                        pow2((up + 1) as nat) == 2 * pow2(up as nat),
                ;
            }
            den = 2 * den;
            up = up + 1;
        }
        let mut down: u32 = 0;
        let mut left: u32 = self.shift;
        while up == 0 && left > 0 && 2 * num < limit * den
            invariant
                limit == SIGNIFICANDS,
                1 <= over <= 1000,
                over <= den <= 7200,
                den == over * pow2(up as nat),
                num < limit * den,
                num == start * pow2(down as nat),
                left + down == self.shift,
                up > 0 ==> down == 0 && limit * den <= 2 * num,
            decreases left,
        {
            proof {
                lemma_pow2_unfold((down + 1) as nat);
                assert(2 * (start * pow2(down as nat)) == start * pow2((down + 1) as nat))
                    by (nonlinear_arith)
                    requires
                        pow2((down + 1) as nat) == 2 * pow2(down as nat),
                ;
            }
            num = 2 * num;
            down = down + 1;
            left = left - 1;
        }
        proof {
            let e = (left + up) as nat;
            lemma_pow2_adds(left as nat, down as nat);
            lemma_pow2_adds(left as nat, up as nat);
            let s = start as int;
            let whole = pow2(self.shift as nat) as int;
            let l = pow2(left as nat) as int;
            let d = pow2(down as nat) as int;
            let u = pow2(up as nat) as int;
            let k = self.significand as int;
            let t = times as int;
            let o = over as int;
            assert((k * whole * t) * (o * u) == (s * d) * o * (l * u)) by (nonlinear_arith)
                requires
                    s == k * t,
                    whole == l * d,
            ;
            nearest_double_of_scaled(
                self.grains() * times as nat,
                over as nat,
                num as nat,
                den as nat,
                e,
            );
            significand_fits(num as nat, den as nat);
        }
        Double { significand: nearest(num, den), shift: left + up }
    }
}

proof fn one_is_pow2()
    ensures
        pow2(0) == 1,
{
    reveal(pow2);
    vstd::arithmetic::power::lemma_pow0(2);
}

/// What is below two to the power of 53 rounds to a significand, a full one
/// where it is at least half of that.
proof fn significand_fits(num: nat, den: nat)
    requires
        den > 0,
        num < SIGNIFICANDS * den,
    ensures
        nearest_even(num, den) <= SIGNIFICANDS,
        SIGNIFICANDS * den <= 2 * num ==> SIGNIFICANDS <= 2 * nearest_even(num, den),
{
    let k = nearest_even(num, den);
    nearest_even_is_near(num, den);
    if k > SIGNIFICANDS {
        assert(k * den >= (SIGNIFICANDS + 1) * den) by (nonlinear_arith)
            requires
                k >= SIGNIFICANDS + 1,
                den > 0,
        ;
        assert((SIGNIFICANDS + 1) * den == SIGNIFICANDS * den + den) by (nonlinear_arith);
    }
    if 2 * k < SIGNIFICANDS {
        assert((2 * k) * den <= (SIGNIFICANDS - 2) * den) by (nonlinear_arith)
            requires
                2 * k <= SIGNIFICANDS - 2,
                den > 0,
        ;
        assert((SIGNIFICANDS - 2) * den == SIGNIFICANDS * den - 2 * den) by (nonlinear_arith);
        assert((2 * k) * den == 2 * (k * den)) by (nonlinear_arith);
    }
}

/// `num / den` rounded to the nearest integer, ties to the even one.
fn nearest(num: u128, den: u128) -> (out: u64)
    requires
        0 < den <= 7200,
        num < SIGNIFICANDS * den,
    ensures
        out == nearest_even(num as nat, den as nat),
{
    proof {
        significand_fits(num as nat, den as nat);
        lemma_fundamental_div_mod(num as int, den as int);
        assert(num / den <= num) by (nonlinear_arith)
            requires
                den > 0,
        ;
    }
    let q: u128 = num / den;
    let r: u128 = num % den;
    let out: u128 = if 2 * r > den || (2 * r == den && q % 2 == 1) {
        q + 1
    } else {
        q
    };
    out as u64
}

/// The digits behind a decimal point as one number.
pub open spec fn digits_value(digits: Seq<u8>) -> nat
    decreases digits.len(),
{
    if digits.len() == 0 {
        0
    } else {
        (digits[0] * pow(10, (digits.len() - 1) as nat) + digits_value(
            digits.drop_first(),
        )) as nat
    }
}

pub open spec fn are_digits(digits: Seq<u8>) -> bool {
    forall|i: int| 0 <= i < digits.len() ==> #[trigger] digits[i] <= 9
}

proof fn ten_pow(n: nat)
    ensures
        pow(10, n) > 0,
        pow(10, n + 1) == 10 * pow(10, n),
        pow(10, 0) == 1,
{
    reveal(pow);
    lemma_pow_positive(10, n);
}

proof fn digits_are_bounded(digits: Seq<u8>)
    requires
        are_digits(digits),
    ensures
        digits_value(digits) < pow(10, digits.len()),
        (digits_value(digits) == 0) == (forall|i: int|
            0 <= i < digits.len() ==> #[trigger] digits[i] == 0),
    decreases digits.len(),
{
    ten_pow(0);
    if digits.len() > 0 {
        let rest = digits.drop_first();
        let n = rest.len();
        assert forall|i: int| 0 <= i < rest.len() implies #[trigger] rest[i] <= 9 by {
            assert(rest[i] == digits[i + 1]);
        }
        digits_are_bounded(rest);
        ten_pow(n);
        let d = digits[0] as int;
        let p = pow(10, n);
        assert(0 <= d * p <= 9 * p) by (nonlinear_arith)
            requires
                0 <= d <= 9,
                p > 0,
        ;
        assert(d > 0 ==> d * p > 0) by (nonlinear_arith)
            requires
                p > 0,
        ;
        assert(d == 0 ==> d * p == 0) by (nonlinear_arith);
        if digits_value(digits) == 0 {
            assert forall|i: int| 0 <= i < digits.len() implies #[trigger] digits[i] == 0 by {
                if i > 0 {
                    assert(rest[i - 1] == digits[i]);
                }
            }
        }
        if (forall|i: int| 0 <= i < digits.len() ==> #[trigger] digits[i] == 0) {
            assert forall|i: int| 0 <= i < rest.len() implies #[trigger] rest[i] == 0 by {
                assert(rest[i] == digits[i + 1]);
            }
        }
    }
}

/// Doubles the digits behind a decimal point; true where that carries over it.
fn double_digits(digits: &mut Vec<u8>) -> (out: bool)
    requires
        are_digits(old(digits)@),
    ensures
        final(digits).len() == old(digits).len(),
        are_digits(final(digits)@),
        2 * digits_value(old(digits)@) == (if out {
            pow(10, old(digits)@.len())
        } else {
            0
        }) + digits_value(final(digits)@),
{
    let ghost before = digits@;
    let n: usize = digits.len();
    let mut i: usize = n;
    let mut carry = false;
    proof {
        ten_pow(0);
        assert(before.skip(n as int) =~= Seq::<u8>::empty());
    }
    while i > 0
        invariant
            i <= n,
            n == before.len(),
            digits.len() == n,
            are_digits(before),
            are_digits(digits@),
            forall|k: int| 0 <= k < i ==> #[trigger] digits@[k] == before[k],
            2 * digits_value(before.skip(i as int)) == (if carry {
                pow(10, (n - i) as nat)
            } else {
                0
            }) + digits_value(digits@.skip(i as int)),
        decreases i,
    {
        let ghost now = digits@;
        i = i - 1;
        let d: u8 = digits[i];
        assert(before[i as int] <= 9);
        let sum: u8 = if carry {
            2 * d + 1
        } else {
            2 * d
        };
        let ghost carried: int = if carry {
            1
        } else {
            0
        };
        carry = sum >= 10;
        let digit: u8 = if sum >= 10 {
            sum - 10
        } else {
            sum
        };
        digits.set(i, digit);
        proof {
            let tail = before.skip(i + 1);
            assert(before.skip(i as int).drop_first() =~= tail);
            assert(digits@.skip(i as int).drop_first() =~= now.skip(i + 1));
            ten_pow((n - i - 1) as nat);
            let p = pow(10, (n - i - 1) as nat);
            let dd = d as int;
            let x = digit as int;
            if carry {
                assert(2 * (dd * p) + carried * p == 10 * p + x * p) by (nonlinear_arith)
                    requires
                        2 * dd + carried == 10 + x,
                ;
            } else {
                assert(2 * (dd * p) + carried * p == x * p) by (nonlinear_arith)
                    requires
                        2 * dd + carried == x,
                ;
            }
            assert(carried == 0 ==> carried * p == 0) by (nonlinear_arith);
            assert(carried == 1 ==> carried * p == p) by (nonlinear_arith);
            assert forall|k: int| 0 <= k < n implies #[trigger] digits@[k] <= 9 by {
                if k != i {
                    assert(digits@[k] == now[k]);
                }
            }
        }
    }
    assert(before.skip(0) =~= before);
    assert(digits@.skip(0) =~= digits@);
    carry
}

fn all_zeros(digits: &Vec<u8>) -> (out: bool)
    requires
        are_digits(digits@),
    ensures
        out == (digits_value(digits@) == 0),
{
    proof {
        digits_are_bounded(digits@);
    }
    let mut i: usize = 0;
    while i < digits.len()
        invariant
            i <= digits.len(),
            are_digits(digits@),
            forall|k: int| 0 <= k < i ==> #[trigger] digits@[k] == 0,
        decreases digits.len() - i,
    {
        if digits[i] != 0 {
            proof {
                digits_are_bounded(digits@);
                assert(digits@[i as int] != 0);
            }
            return false;
        }
        i = i + 1;
    }
    true
}

/// A decimal number without its point: `whole` and then the digits behind the
/// point.
pub open spec fn decimal_mantissa(whole: nat, digits: Seq<u8>) -> nat {
    whole * pow(10, digits.len()) as nat + digits_value(digits)
}

/// The double nearest to a decimal number.
pub open spec fn decimal_grains(whole: nat, digits: Seq<u8>) -> nat {
    nearest_double(
        decimal_mantissa(whole, digits) * grains_per_one(),
        pow(10, digits.len()) as nat,
    )
}

/// Rounds a number that is too large for a significand: the digits behind the
/// point only break ties.
fn round_large(whole: u128, digits: &Vec<u8>) -> (out: Double)
    requires
        SIGNIFICANDS <= whole < 0x1_0000_0000_0000_0000_0000_0000,
        are_digits(digits@),
    ensures
        out.wf(),
        out.shift <= 2000,
        out.grains() == decimal_grains(whole as nat, digits@),
{
    let limit: u128 = SIGNIFICANDS as u128;
    let mut scale: u128 = 1;
    let mut shift: u32 = 0;
    proof {
        one_is_pow2();
        vstd::arithmetic::power2::lemma2_to64_rest();
    }
    while whole >= limit * scale
        invariant
            limit == SIGNIFICANDS,
            SIGNIFICANDS <= whole < 0x1_0000_0000_0000_0000_0000_0000,
            scale == pow2(shift as nat),
            1 <= scale <= 0x1000_0000_0000,
            shift > 0 ==> limit * scale <= 2 * whole && scale % 2 == 0,
            shift == 0 ==> scale == 1,
            shift < 64,
            shift > 44 ==> scale > 0x1000_0000_0000,
            pow2(44) == 0x1000_0000_0000,
        decreases 64 - shift,
    {
        proof {
            lemma_pow2_unfold((shift + 1) as nat);
        }
        scale = 2 * scale;
        shift = shift + 1;
    }
    let k: u128 = whole / scale;
    let r: u128 = whole % scale;
    let more = !all_zeros(digits);
    let up = 2 * r > scale || (2 * r == scale && (more || k % 2 == 1));
    let ghost p = pow(10, digits@.len()) as nat;
    let ghost f = digits_value(digits@);
    let ghost a = decimal_mantissa(whole as nat, digits@);
    let ghost b = p * scale as nat;
    proof {
        ten_pow(digits@.len());
        digits_are_bounded(digits@);
        lemma_fundamental_div_mod(whole as int, scale as int);
        let rest = (r * p + f) as nat;
        let (w, s, kk, rr) = (whole as int, scale as int, k as int, r as int);
        assert(a == kk * b + rest) by (nonlinear_arith)
            requires
                a == w * p + f,
                w == s * kk + rr,
                b == p * s,
                rest == rr * p + f,
        ;
        assert(rest < b) by (nonlinear_arith)
            requires
                rr + 1 <= s,
                rest == rr * p + f,
                f < p,
                b == p * s,
        ;
        if 2 * r > scale {
            assert(2 * rest > b) by (nonlinear_arith)
                requires
                    2 * rr >= s + 1,
                    rest == rr * p + f,
                    p > 0,
                    f >= 0,
                    b == p * s,
            ;
        } else if 2 * r == scale {
            assert(2 * rest == b + 2 * f) by (nonlinear_arith)
                requires
                    2 * rr == s,
                    rest == rr * p + f,
                    b == p * s,
            ;
        } else {
            assert(2 * rest < b) by (nonlinear_arith)
                requires
                    2 * rr <= s - 2,
                    rest == rr * p + f,
                    f < p,
                    b == p * s,
            ;
        }
        nearest_even_of_parts(a, b, k as nat, rest);
        assert(a < SIGNIFICANDS * b) by (nonlinear_arith)
            requires
                w + 1 <= SIGNIFICANDS * s,
                a == w * p + f,
                f < p,
                b == p * s,
        ;
        assert(SIGNIFICANDS * b <= 2 * a) by (nonlinear_arith)
            requires
                SIGNIFICANDS * s <= 2 * w,
                a == w * p + f,
                f >= 0,
                p > 0,
                b == p * s,
        ;
        assert(b > 0) by (nonlinear_arith)
            requires
                p > 0,
                s > 0,
                b == p * s,
        ;
        significand_fits(a, b);
        let g = grains_per_one();
        lemma_pow2_adds(GRAIN_SHIFT as nat, shift as nat);
        let e = (GRAIN_SHIFT + shift) as nat;
        assert((a * g) * b == a * p * (g * scale as nat)) by (nonlinear_arith)
            requires
                b == p * scale as nat,
        ;
        nearest_double_of_scaled(a * g, p, a, b, e);
    }
    let significand: u128 = if up {
        k + 1
    } else {
        k
    };
    Double { significand: significand as u64, shift: GRAIN_SHIFT + shift }
}

/// Rounds a number that a significand holds, drawing in the digits behind the
/// point bit by bit.
fn round_small(whole: u64, digits: Vec<u8>) -> (out: Double)
    requires
        whole < SIGNIFICANDS,
        are_digits(digits@),
    ensures
        out.wf(),
        out.shift <= 2000,
        out.grains() == decimal_grains(whole as nat, digits@),
{
    let ghost all = digits@;
    let ghost m = decimal_mantissa(whole as nat, all);
    let ghost p = pow(10, all.len()) as nat;
    let mut k: u64 = whole;
    let mut fraction = digits;
    let mut drawn: u32 = 0;
    proof {
        one_is_pow2();
        ten_pow(all.len());
        assert(m * pow2(0) == m) by (nonlinear_arith)
            requires
                pow2(0) == 1,
        ;
    }
    while drawn < GRAIN_SHIFT && 2 * k < SIGNIFICANDS
        invariant
            drawn <= GRAIN_SHIFT,
            k < SIGNIFICANDS,
            fraction@.len() == all.len(),
            are_digits(fraction@),
            p == pow(10, all.len()),
            p > 0,
            m * pow2(drawn as nat) == k as nat * p + digits_value(fraction@),
        decreases GRAIN_SHIFT - drawn,
    {
        let ghost f = digits_value(fraction@);
        let carry = double_digits(&mut fraction);
        proof {
            lemma_pow2_unfold((drawn + 1) as nat);
            let kk = k as int;
            let w = pow2(drawn as nat) as int;
            assert(m * (2 * w) == 2 * (m * w)) by (nonlinear_arith);
            assert((2 * kk) * p == 2 * (kk * p)) by (nonlinear_arith);
            assert((2 * kk + 1) * p == 2 * (kk * p) + p) by (nonlinear_arith);
        }
        k = if carry {
            2 * k + 1
        } else {
            2 * k
        };
        drawn = drawn + 1;
    }
    let ghost f = digits_value(fraction@);
    let ghost a = m * pow2(drawn as nat);
    proof {
        digits_are_bounded(fraction@);
    }
    let half = double_digits(&mut fraction);
    let more = !all_zeros(&fraction);
    let up = half && (more || k % 2 == 1);
    proof {
        digits_are_bounded(fraction@);
        nearest_even_of_parts(a, p, k as nat, f);
        let kk = k as int;
        assert(a < SIGNIFICANDS * p) by (nonlinear_arith)
            requires
                kk + 1 <= SIGNIFICANDS,
                a == kk * p + f,
                f < p,
        ;
        if 2 * k >= SIGNIFICANDS {
            assert(SIGNIFICANDS * p <= 2 * a) by (nonlinear_arith)
                requires
                    SIGNIFICANDS <= 2 * kk,
                    a == kk * p + f,
                    f >= 0,
                    p > 0,
            ;
        }
        significand_fits(a, p);
        let e = (GRAIN_SHIFT - drawn) as nat;
        lemma_pow2_adds(drawn as nat, e);
        let g = grains_per_one();
        let (x, y) = (pow2(drawn as nat), pow2(e));
        assert((m * g) * p == a * p * y) by (nonlinear_arith)
            requires
                a == m * x,
                g == x * y,
        ;
        nearest_double_of_scaled(m * g, p, a, p, e);
    }
    Double {
        significand: if up {
            k + 1
        } else {
            k
        },
        shift: GRAIN_SHIFT - drawn,
    }
}

/// The double nearest to a decimal number.
pub fn round_decimal(whole: u128, digits: Vec<u8>) -> (out: Double)
    requires
        whole < 0x1_0000_0000_0000_0000_0000_0000,
        are_digits(digits@),
    ensures
        out.wf(),
        out.shift <= 2000,
        out.grains() == decimal_grains(whole as nat, digits@),
{
    if whole < SIGNIFICANDS as u128 {
        round_small(whole as u64, digits)
    } else {
        round_large(whole, &digits)
    }
}

} // verus!
