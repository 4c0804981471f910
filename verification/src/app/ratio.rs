//! Quotients in binary double precision, shown with one decimal.
//!
//! Numbers are integers here: a value of 53 significant bits is a mantissa with
//! a power of two, and rounding is to the nearest, ties to even.

use vstd::prelude::*;

use crate::strs;
use crate::strs::{decimal, numeral_value};

verus! {

/// `a / b` rounded to the nearest integer, a tie to the even one.
pub open spec fn nearest(a: nat, b: nat) -> nat
    recommends
        b > 0,
{
    let whole = a / b;
    let rest = a % b;
    if 2 * rest > b || (2 * rest == b && whole % 2 == 1) {
        whole + 1
    } else {
        whole
    }
}

fn round_div(a: u128, b: u128) -> (n: u128)
    requires
        0 < b <= u128::MAX / 2,
    ensures
        n == nearest(a as nat, b as nat),
{
    let whole = a / b;
    let rest = a % b;
    if 2 * rest > b || (2 * rest == b && whole % 2 == 1) {
        proof {
            assert(whole < u128::MAX) by (nonlinear_arith)
                requires
                    whole == a / b,
                    rest == a % b,
                    rest > 0,
                    b > 0,
                    a <= u128::MAX,
            ;
        }
        whole + 1
    } else {
        whole
    }
}

/// `v` in units of `unit`, or of the next larger power of two in which 53 bits
/// hold it.
pub open spec fn double_from(v: nat, unit: nat) -> nat
    decreases v - unit,
{
    if v < 0x20_0000_0000_0000 * unit || unit == 0 {
        nearest(v, unit) * unit
    } else {
        double_from(v, 2 * unit)
    }
}

/// An integer rounded to 53 significant bits.
pub open spec fn as_double(v: nat) -> nat {
    double_from(v, 1)
}

/// Tenths of `a / b` where the quotient is below its 53 bits: `a` is doubled
/// until it has them, and each tenth counts `unit` of the mantissa.
pub open spec fn tenths_up(a: nat, b: nat, unit: nat) -> nat
    decreases 0x20_0000_0000_0000 * b - a,
{
    if a >= 0x10_0000_0000_0000 * b || a == 0 {
        nearest(10 * nearest(a, b), unit)
    } else {
        tenths_up(2 * a, b, 2 * unit)
    }
}

/// Tenths of `a / b` where the quotient exceeds its 53 bits.
pub open spec fn tenths_down(a: nat, b: nat, unit: nat) -> nat
    decreases a - b,
{
    if a < 0x20_0000_0000_0000 * b || b == 0 {
        10 * nearest(a, b) * unit
    } else {
        tenths_down(a, 2 * b, 2 * unit)
    }
}

/// The quotient `a / b` of two 53-bit numbers in 53 bits, in tenths.
pub open spec fn tenths(a: nat, b: nat) -> nat {
    if a == 0 {
        0
    } else if a >= 0x10_0000_0000_0000 * b {
        tenths_down(a, b, 1)
    } else {
        tenths_up(a, b, 1)
    }
}

fn to_double(v: u128) -> (d: u128)
    requires
        v <= 0x1_0000_0000_0000_0000_0000,
    ensures
        d == as_double(v as nat),
        v <= u64::MAX ==> d <= 2 * (u64::MAX as u128),
        d <= 0x2_0000_0000_0000_0000_0000,
        v > 0 ==> d > 0,
{
    let mut unit: u128 = 1;
    while v >= 0x20_0000_0000_0000 * unit
        invariant
            v <= 0x1_0000_0000_0000_0000_0000,
            unit >= 1,
            unit == 1 || 0x10_0000_0000_0000 * unit <= v,
            as_double(v as nat) == double_from(v as nat, unit as nat),
        decreases v - unit,
    {
        unit = 2 * unit;
    }
    let n = round_div(v, unit);
    proof {
        rounding_bounds(v as nat, unit as nat);
        assert(n * unit <= v + unit) by (nonlinear_arith)
            requires
                n * unit <= v + unit,
        ;
        if v > 0 {
            assert(n > 0) by {
                if unit > 1 {
                    assert(v as nat / unit as nat >= 1) by (nonlinear_arith)
                        requires
                            v >= unit,
                            unit > 0,
                    ;
                }
            }
            assert(n * unit > 0) by (nonlinear_arith)
                requires
                    n > 0,
                    unit > 0,
            ;
        }
    }
    n * unit
}

proof fn rounding_bounds(a: nat, b: nat)
    requires
        b > 0,
    ensures
        nearest(a, b) <= a / b + 1,
        nearest(a, b) * b <= a + b,
        b == 1 ==> nearest(a, b) == a,
{
    let whole = a / b;
    assert(whole * b <= a) by (nonlinear_arith)
        requires
            whole == a / b,
            b > 0,
    ;
    assert((whole + 1) * b <= a + b) by (nonlinear_arith)
        requires
            whole * b <= a,
    ;
    if b == 1 {
        assert(a % 1 == 0 && a / 1 == a);
    }
}

proof fn quotient_bound(a: nat, b: nat, bound: nat)
    requires
        b > 0,
        a < b * bound,
    ensures
        a / b < bound,
{
    assert(a / b < bound) by (nonlinear_arith)
        requires
            b > 0,
            a < b * bound,
    ;
}

/// Tenths of the quotient of two 53-bit numbers.
fn quotient(a: u128, b: u128) -> (n: u128)
    requires
        0 < b <= 2 * (u64::MAX as u128),
        a <= 0x2_0000_0000_0000_0000_0000,
    ensures
        n == tenths(a as nat, b as nat),
{
    if a == 0 {
        return 0;
    }
    if a >= 0x10_0000_0000_0000 * b {
        let mut unit: u128 = 1;
        let mut below: u128 = b;
        while a >= 0x20_0000_0000_0000 * below
            invariant
                0 < below,
                a <= 0x2_0000_0000_0000_0000_0000,
                0x10_0000_0000_0000 * below <= a,
                1 <= unit <= below,
                tenths_down(a as nat, b as nat, 1) == tenths_down(
                    a as nat,
                    below as nat,
                    unit as nat,
                ),
            decreases a - below,
        {
            below = 2 * below;
            unit = 2 * unit;
        }
        proof {
            assert(below <= 0x2000_0000);
            assert(a < below * 0x20_0000_0000_0000);
            quotient_bound(a as nat, below as nat, 0x20_0000_0000_0000);
            rounding_bounds(a as nat, below as nat);
        }
        let n = round_div(a, below);
        assert(n <= 0x20_0000_0000_0000);
        assert(10 * n * unit <= 10 * 0x20_0000_0000_0000 * 0x2000_0000) by (nonlinear_arith)
            requires
                n <= 0x20_0000_0000_0000,
                unit <= 0x2000_0000,
        ;
        10 * n * unit
    } else {
        let mut unit: u128 = 1;
        let mut above: u128 = a;
        while above < 0x10_0000_0000_0000 * b
            invariant
                0 < b <= 2 * (u64::MAX as u128),
                1 <= unit <= above < 0x20_0000_0000_0000 * b,
                tenths_up(a as nat, b as nat, 1) == tenths_up(above as nat, b as nat, unit as nat),
            decreases 0x20_0000_0000_0000 * b - above,
        {
            above = 2 * above;
            unit = 2 * unit;
        }
        proof {
            quotient_bound(above as nat, b as nat, 0x20_0000_0000_0000);
            rounding_bounds(above as nat, b as nat);
        }
        let n = round_div(above, b);
        round_div(10 * n, unit)
    }
}

/// `value / unit`, in tenths.
pub open spec fn share(value: u64, unit: u64) -> nat {
    tenths(as_double(value as nat), as_double(unit as nat))
}

/// `part` as a percentage of `whole`, in tenths.
pub open spec fn percentage(part: u64, whole: u64) -> nat {
    tenths(as_double(as_double(part as nat) * 100), as_double(whole as nat))
}

pub fn share_tenths(value: u64, unit: u64) -> (n: u128)
    requires
        unit > 0,
    ensures
        n == share(value, unit),
{
    quotient(to_double(value as u128), to_double(unit as u128))
}

pub fn percent_tenths(part: u64, whole: u64) -> (n: u128)
    requires
        whole > 0,
    ensures
        n == percentage(part, whole),
{
    quotient(to_double(to_double(part as u128) * 100), to_double(whole as u128))
}

/// Tenths as a numeral with one decimal.
pub open spec fn one_decimal(n: nat) -> Seq<char> {
    decimal(n / 10) + "."@ + decimal(n % 10)
}

/// Tenths as a numeral; a decimal of zero is left out.
pub open spec fn short_decimal(n: nat) -> Seq<char> {
    if n % 10 == 0 {
        decimal(n / 10)
    } else {
        one_decimal(n)
    }
}

pub fn with_decimal(n: u128) -> (text: String)
    ensures
        text@ == one_decimal(n as nat),
{
    strs::cat3(strs::numeral(n / 10).as_str(), ".", strs::numeral(n % 10).as_str())
}

pub fn without_zero(n: u128) -> (text: String)
    ensures
        text@ == short_decimal(n as nat),
{
    if n % 10 == 0 {
        strs::numeral(n / 10)
    } else {
        with_decimal(n)
    }
}

/// Rounding goes to a nearest whole number.
pub proof fn rounding_is_nearest(a: nat, b: nat)
    requires
        b > 0,
    ensures
        2 * (nearest(a, b) * b) <= 2 * a + b,
        2 * (nearest(a, b) * b) + b >= 2 * a,
{
    let whole = a / b;
    let rest = a % b;
    assert(a == whole * b + rest) by {
        vstd::arithmetic::div_mod::lemma_fundamental_div_mod(a as int, b as int);
        assert(b * whole == whole * b) by (nonlinear_arith);
    }
    assert((whole + 1) * b == whole * b + b) by (nonlinear_arith);
    vstd::arithmetic::div_mod::lemma_mod_bound(a as int, b as int);
}

/// A number below two to the fifty-third is a double itself.
pub proof fn small_numbers_are_doubles(v: nat)
    requires
        v < 0x20_0000_0000_0000,
    ensures
        as_double(v) == v,
{
    assert(v / 1 == v && v % 1 == 0);
}

/// What scaling by `m` finds: the tenths of `a` out of `b` times `unit`.
spec fn scaled_close(a: nat, b: nat, unit: nat, t: nat, m: nat) -> bool {
    &&& m >= 1
    &&& m * a >= 0x10_0000_0000_0000 * b
    &&& 2 * (t * (m * unit * b)) <= 20 * (m * a) + m * unit * b + 10 * b
    &&& 2 * (t * (m * unit * b)) + m * unit * b + 10 * b >= 20 * (m * a)
}

proof fn scaled_tenths(a: nat, b: nat, unit: nat) -> (m: nat)
    requires
        b > 0,
        a > 0,
        unit > 0,
        a < 0x20_0000_0000_0000 * b,
    ensures
        scaled_close(a, b, unit, tenths_up(a, b, unit), m),
    decreases 0x20_0000_0000_0000 * b - a,
{
    let t = tenths_up(a, b, unit);
    if a >= 0x10_0000_0000_0000 * b {
        let q = nearest(a, b);
        rounding_is_nearest(a, b);
        rounding_is_nearest(10 * q, unit);
        assert(t == nearest(10 * q, unit));
        let tu = t * unit;
        assert(2 * tu <= 20 * q + unit && 2 * tu + unit >= 20 * q);
        assert(2 * (tu * b) <= 20 * (q * b) + unit * b) by (nonlinear_arith)
            requires
                2 * tu <= 20 * q + unit,
                b > 0,
        ;
        assert(2 * (tu * b) + unit * b >= 20 * (q * b)) by (nonlinear_arith)
            requires
                2 * tu + unit >= 20 * q,
                b > 0,
        ;
        assert(t * (1 * unit * b) == tu * b) by (nonlinear_arith)
            requires
                tu == t * unit,
        ;
        assert(1 * unit * b == unit * b);
        1
    } else {
        let m = scaled_tenths(2 * a, b, 2 * unit);
        assert((2 * m) * a == m * (2 * a)) by (nonlinear_arith);
        assert((2 * m) * unit * b == m * (2 * unit) * b) by (nonlinear_arith);
        2 * m
    }
}

/// A quotient is told to the tenth: what is told is off by less than one.
pub proof fn tenths_are_close(a: nat, b: nat)
    requires
        b > 0,
        a < 0x1_0000_0000_0000 * b,
    ensures
        tenths(a, b) * b < 10 * a + b,
        tenths(a, b) * b + b > 10 * a,
{
    if a > 0 {
        let t = tenths(a, b);
        let m = scaled_tenths(a, b, 1);
        assert(m >= 16) by (nonlinear_arith)
            requires
                m * a >= 0x10_0000_0000_0000 * b,
                a < 0x1_0000_0000_0000 * b,
                b > 0,
        ;
        assert(m * 1 * b == m * b);
        assert(t * (m * b) == m * (t * b)) by (nonlinear_arith);
        let tb = t * b;
        assert(10 * b < m * b) by (nonlinear_arith)
            requires
                m >= 16,
                b > 0,
        ;
        assert(2 * (m * tb) < 20 * (m * a) + 2 * (m * b));
        assert(2 * (m * tb) + 2 * (m * b) > 20 * (m * a));
        assert(tb < 10 * a + b) by (nonlinear_arith)
            requires
                2 * (m * tb) < 20 * (m * a) + 2 * (m * b),
                m >= 16,
        ;
        assert(tb + b > 10 * a) by (nonlinear_arith)
            requires
                2 * (m * tb) + 2 * (m * b) > 20 * (m * a),
                m >= 16,
        ;
    } else {
        assert(tenths(a, b) == 0);
    }
}

/// The tenths told of a value are off by less than one, for values below two to
/// the forty-eighth.
pub proof fn shares_are_close(value: u64, unit: u64)
    requires
        value < 0x1_0000_0000_0000,
        0 < unit < 0x20_0000_0000_0000,
    ensures
        share(value, unit) * unit < 10 * value + unit,
        share(value, unit) * unit + unit > 10 * value,
{
    small_numbers_are_doubles(value as nat);
    small_numbers_are_doubles(unit as nat);
    tenths_are_close(value as nat, unit as nat);
}

/// The tenths of a percent that are told are off by less than one, for parts
/// below two to the fortieth.
pub proof fn percentages_are_close(part: u64, whole: u64)
    requires
        part < 0x100_0000_0000,
        0 < whole < 0x20_0000_0000_0000,
    ensures
        percentage(part, whole) * whole < 1000 * part + whole,
        percentage(part, whole) * whole + whole > 1000 * part,
{
    small_numbers_are_doubles(part as nat);
    small_numbers_are_doubles((part * 100) as nat);
    small_numbers_are_doubles(whole as nat);
    tenths_are_close((part * 100) as nat, whole as nat);
}

/// A number of tenths reads as its whole part, a point and one digit; where
/// that digit would be zero the short form leaves point and digit out.
pub proof fn tenths_read_back(n: nat)
    ensures
        numeral_value(one_decimal(n).take(one_decimal(n).len() - 2)) == n as int / 10,
        one_decimal(n)[one_decimal(n).len() - 2] == '.',
        numeral_value(one_decimal(n).skip(one_decimal(n).len() - 1)) == n as int % 10,
        n % 10 != 0 ==> short_decimal(n) == one_decimal(n),
        n % 10 == 0 ==> numeral_value(short_decimal(n)) == n as int / 10,
{
    reveal_strlit(".");
    crate::strs::numerals_read_back(n / 10);
    crate::strs::numerals_read_back(n % 10);
    let whole = decimal(n / 10);
    let text = one_decimal(n);
    assert(decimal(n % 10).len() == 1);
    assert(text.take(text.len() - 2) =~= whole);
    assert(text.skip(text.len() - 1) =~= decimal(n % 10));
}

} // verus!
