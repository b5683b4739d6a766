//! Integer arithmetic that rounds as IEEE 754 double precision does.
//!
//! The dashboard shows scaled quantities with two decimal places. The text it
//! shows is the one that double-precision arithmetic gives: the quantity is
//! taken to the nearest double, divided in double precision, and the quotient
//! is written to the nearest hundredth. Every step rounds to nearest, ties to
//! even, and is stated here over the natural numbers.

use vstd::arithmetic::div_mod::lemma_fundamental_div_mod_converse;
use vstd::arithmetic::power2::{lemma_pow2_adds, lemma_pow2_pos, lemma_pow2_strictly_increases, pow2};
use vstd::prelude::*;

verus! {

/// 2^52: a double whose value is at least this is an integer.
pub const TWO_52: u64 = 4503599627370496;

/// 2^53: every natural number below this is a double.
pub const TWO_53: u64 = 9007199254740992;

/// `num / den` rounded to the nearest natural number, a tie going to the even
/// neighbour.
pub open spec fn round_half_even(num: nat, den: nat) -> nat
    recommends
        den > 0,
{
    let q = num / den;
    let r = num % den;
    if 2 * r > den || (2 * r == den && q % 2 == 1) {
        q + 1
    } else {
        q
    }
}

/// The distance between the doubles around `n`: 1 below 2^53, and twice as
/// much each time `n` doubles from there.
pub open spec fn spacing(n: nat) -> nat
    decreases n,
{
    if n < TWO_53 {
        1
    } else {
        2 * spacing(n / 2)
    }
}

/// The double nearest to the natural number `n`.
pub open spec fn nearest_double(n: nat) -> nat {
    round_half_even(n, spacing(n)) * spacing(n)
}

/// The power of two by which `a / d` has to be multiplied to lie between
/// 2^52 and 2^53, for a quotient that is at least 1. A double nearest to such
/// a quotient is a whole multiple of `1 / scale(a, d)`.
pub open spec fn scale(a: nat, d: nat) -> nat
    decreases
            (if a < d * TWO_52 {
                d * TWO_52 - a
            } else {
                0
            }),
{
    if a == 0 || a >= d * TWO_52 {
        1
    } else {
        2 * scale(2 * a, d)
    }
}

/// The double nearest to `a / d`, counted in units of `1 / scale(a, d)`.
pub open spec fn quotient_units(a: nat, d: nat) -> nat
    recommends
        0 < d <= a,
        a < d * TWO_53,
{
    round_half_even(a * scale(a, d), d)
}

/// The double nearest to `a / d`, rounded to hundredths.
pub open spec fn quotient_hundredths(a: nat, d: nat) -> nat
    recommends
        0 < d <= a,
        a < d * TWO_53,
{
    round_half_even(quotient_units(a, d) * 100, scale(a, d))
}

/// What the quantity `n` in units of `d` shows as, in hundredths of a unit:
/// `n` goes to the nearest double, that is divided by `d` in double
/// precision, and the quotient is rounded to two decimal places.
pub open spec fn scaled_hundredths(n: nat, d: nat) -> nat
    recommends
        0 < d <= n,
        nearest_double(n) < d * TWO_53,
{
    quotient_hundredths(nearest_double(n), d)
}

/// The rounded quotient is a nearest natural number: it is no further from
/// `num / den` than a half.
pub proof fn rounding_is_nearest(num: nat, den: nat)
    requires
        den > 0,
    ensures
        2 * (round_half_even(num, den) * den - num) <= den,
        2 * (num - round_half_even(num, den) * den) <= den,
{
    let q = num / den;
    let r = num % den;
    assert(num == q * den + r && 0 <= r < den) by (nonlinear_arith)
        requires
            den > 0,
            q == num / den,
            r == num % den,
    ;
    assert((q + 1) * den == q * den + den) by (nonlinear_arith);
}

/// A quotient that is a natural number is not rounded.
pub proof fn lemma_round_exact(n: nat, d: nat)
    requires
        d > 0,
    ensures
        round_half_even(n * d, d) == n,
{
    lemma_fundamental_div_mod_converse((n * d) as int, d as int, n as int, 0);
}

/// Rounding looks at the quotient alone: a common factor of `num` and `den`
/// does not matter.
pub proof fn lemma_round_scales(n: nat, d: nat, m: nat)
    requires
        d > 0,
        m > 0,
    ensures
        round_half_even(n * m, d * m) == round_half_even(n, d),
{
    let q = n / d;
    let r = n % d;
    assert(n == q * d + r && 0 <= r < d) by (nonlinear_arith)
        requires
            d > 0,
            q == n / d,
            r == n % d,
    ;
    assert(n * m == q * (d * m) + r * m && 0 <= r * m < d * m) by (nonlinear_arith)
        requires
            n == q * d + r,
            0 <= r < d,
            m > 0,
    ;
    lemma_fundamental_div_mod_converse((n * m) as int, (d * m) as int, q as int, (r * m) as int);
    assert((2 * (r * m) > d * m) == (2 * r > d) && (2 * (r * m) == d * m) == (2 * r == d))
        by (nonlinear_arith)
        requires
            m > 0,
    ;
}

/// A natural number below 2^53 is a double.
pub proof fn small_numbers_are_doubles(n: nat)
    requires
        n < TWO_53,
    ensures
        nearest_double(n) == n,
{
    lemma_round_exact(n, 1);
    assert(n * 1 == n);
}

/// The nearest double is no further from `n` than half the distance between
/// the doubles around `n`.
pub proof fn nearest_double_is_near(n: nat)
    ensures
        spacing(n) > 0,
        2 * (nearest_double(n) - n) <= spacing(n),
        2 * (n - nearest_double(n)) <= spacing(n),
{
    lemma_spacing_positive(n);
    rounding_is_nearest(n, spacing(n));
}

/// The distance between doubles is never 0.
proof fn lemma_spacing_positive(n: nat)
    ensures
        spacing(n) > 0,
    decreases n,
{
    if n >= TWO_53 {
        lemma_spacing_positive(n / 2);
    }
}

/// `scale` is a power of two, and it takes a quotient between 1 and 2^53 to
/// a number between 2^52 and 2^53.
pub proof fn scale_normalises(a: nat, d: nat)
    requires
        0 < d <= a,
        a < d * TWO_53,
    ensures
        exists|s: nat| s <= 52 && scale(a, d) == pow2(s),
        d * TWO_52 <= a * scale(a, d),
        a * scale(a, d) < d * TWO_53,
    decreases
            (if a < d * TWO_52 {
                d * TWO_52 - a
            } else {
                0
            }),
{
    vstd::arithmetic::power2::lemma2_to64();
    if a >= d * TWO_52 {
        assert(scale(a, d) == pow2(0));
        assert(a * 1 == a);
    } else {
        assert(2 * a < d * TWO_53 && d * TWO_52 - 2 * a < d * TWO_52 - a) by (nonlinear_arith)
            requires
                a < d * TWO_52,
                a >= d,
                d > 0,
                TWO_52 == 4503599627370496,
                TWO_53 == 9007199254740992,
        ;
        scale_normalises(2 * a, d);
        let inner = scale(2 * a, d);
        let s = choose|s: nat| s <= 52 && inner == pow2(s);
        lemma_pow2_adds(s, 1);
        assert(scale(a, d) == pow2(s + 1));
        assert(a * (2 * inner) == (2 * a) * inner) by (nonlinear_arith);
        // The scaled quotient is below 2^53 and the quotient is at least 1,
        // so the scale is below 2^53.
        assert(2 * inner < TWO_53 as nat) by (nonlinear_arith)
            requires
                a * (2 * inner) < d * TWO_53,
                a >= d,
                d > 0,
        ;
        if s + 1 > 52 {
            lemma_pow2_strictly_increases(52, s + 1);
            lemma_pow2_adds(32, 20);
            lemma_pow2_adds(52, 1);
            if s + 1 > 53 {
                lemma_pow2_strictly_increases(53, s + 1);
            }
            assert(false);
        }
    }
}

/// The quotient in units of `1 / scale` is no further from `a / d` than half
/// a unit: it is a double nearest to the quotient.
pub proof fn quotient_is_rounded_to_nearest(a: nat, d: nat)
    requires
        0 < d <= a,
        a < d * TWO_53,
    ensures
        2 * (quotient_units(a, d) * d - a * scale(a, d)) <= d,
        2 * (a * scale(a, d) - quotient_units(a, d) * d) <= d,
{
    rounding_is_nearest(a * scale(a, d), d);
}

/// What is shown of a quantity of at least one unit and less than `limit`
/// units lies between 1.00 and `limit`.00: rounding never takes a quantity
/// out of the range of its unit.
pub proof fn shown_quotient_stays_in_range(n: nat, d: nat, limit: nat)
    requires
        0 < d <= n,
        n < TWO_53,
        n < limit * d,
    ensures
        100 <= scaled_hundredths(n, d) <= 100 * limit,
{
    small_numbers_are_doubles(n);
    assert(n < d * TWO_53) by (nonlinear_arith)
        requires
            n < TWO_53,
            d >= 1,
    ;
    scale_normalises(n, d);
    let p = scale(n, d);
    let s = choose|s: nat| s <= 52 && p == pow2(s);
    lemma_pow2_pos(s);
    let units = quotient_units(n, d);
    assert(p * d <= n * p && n * p <= (limit * p) * d) by (nonlinear_arith)
        requires
            d <= n,
            n < limit * d,
            p > 0,
    ;
    lemma_round_bounds(n * p, d, p, limit * p);
    assert(100 * p <= units * 100 && units * 100 <= (100 * limit) * p) by (nonlinear_arith)
        requires
            p <= units <= limit * p,
    ;
    lemma_round_bounds(units * 100, p, 100, 100 * limit);
}

/// A rounded quotient lies between two natural numbers that the quotient
/// lies between.
proof fn lemma_round_bounds(num: nat, den: nat, low: nat, high: nat)
    requires
        den > 0,
        low * den <= num <= high * den,
    ensures
        low <= round_half_even(num, den) <= high,
{
    let q = num / den;
    let r = num % den;
    assert(num == q * den + r && 0 <= r < den) by (nonlinear_arith)
        requires
            den > 0,
            q == num / den,
            r == num % den,
    ;
    assert(low <= q) by (nonlinear_arith)
        requires
            low * den <= q * den + r,
            r < den,
            den > 0,
            low >= 0,
            q >= 0,
    ;
    assert(q < high || (q == high && r == 0)) by (nonlinear_arith)
        requires
            q * den + r <= high * den,
            0 <= r,
            den > 0,
            high >= 0,
            q >= 0,
    ;
}

/// Where the unit is a power of two and the quantity is below 2^53, nothing
/// is lost on the way: the hundredths shown are the quantity in units,
/// rounded to hundredths once.
pub proof fn power_of_two_units_round_once(n: nat, k: nat)
    requires
        pow2(k) <= n,
        n < TWO_53,
    ensures
        scaled_hundredths(n, pow2(k)) == round_half_even(100 * n, pow2(k)),
{
    vstd::arithmetic::power2::lemma2_to64();
    lemma_pow2_adds(32, 20);
    lemma_pow2_adds(52, 1);
    let d = pow2(k);
    lemma_pow2_pos(k);
    small_numbers_are_doubles(n);
    assert(n < d * TWO_53) by (nonlinear_arith)
        requires
            n < TWO_53,
            d >= 1,
    ;
    scale_normalises(n, d);
    let p = scale(n, d);
    let s = choose|s: nat| s <= 52 && p == pow2(s);
    lemma_pow2_pos(s);
    // The scale is at least the unit.
    if s < k {
        if s + 1 < k {
            lemma_pow2_strictly_increases(s + 1, k);
        }
        lemma_pow2_adds(s, 1);
        assert(2 * p <= d);
        assert(false) by (nonlinear_arith)
            requires
                d * TWO_52 <= n * p,
                n < TWO_53,
                2 * p <= d,
                p > 0,
                TWO_52 == 4503599627370496,
                TWO_53 == 9007199254740992,
        ;
    }
    let m = pow2((s - k) as nat);
    lemma_pow2_adds(k, (s - k) as nat);
    lemma_pow2_pos((s - k) as nat);
    assert(p == d * m);
    assert(n * p == (n * m) * d) by (nonlinear_arith)
        requires
            p == d * m,
    ;
    lemma_round_exact(n * m, d);
    assert(quotient_units(n, d) == n * m);
    assert((n * m) * 100 == (100 * n) * m) by (nonlinear_arith);
    lemma_round_scales(100 * n, d, m);
}

/// `scale` takes every quotient below 2^53 to a number between 2^52 and
/// 2^53, also a quotient below 1.
pub proof fn scale_normalises_every_quotient(a: nat, d: nat)
    requires
        0 < a,
        0 < d,
        a < d * TWO_53,
    ensures
        scale(a, d) >= 1,
        d * TWO_52 <= a * scale(a, d),
        a * scale(a, d) < d * TWO_53,
        TWO_52 <= quotient_units(a, d) <= TWO_53,
    decreases
            (if a < d * TWO_52 {
                d * TWO_52 - a
            } else {
                0
            }),
{
    if a >= d * TWO_52 {
        assert(a * 1 == a);
    } else {
        assert(2 * a < d * TWO_53 && d * TWO_52 - 2 * a < d * TWO_52 - a) by (nonlinear_arith)
            requires
                a < d * TWO_52,
                a > 0,
                d > 0,
                TWO_52 == 4503599627370496,
                TWO_53 == 9007199254740992,
        ;
        scale_normalises_every_quotient(2 * a, d);
        let inner = scale(2 * a, d);
        assert(a * (2 * inner) == (2 * a) * inner) by (nonlinear_arith);
    }
    let p = scale(a, d);
    assert((TWO_52 as nat) * d <= a * p && a * p <= (TWO_53 as nat) * d) by (nonlinear_arith)
        requires
            d * TWO_52 <= a * p,
            a * p < d * TWO_53,
    ;
    lemma_round_bounds(a * p, d, TWO_52 as nat, TWO_53 as nat);
}

/// A number below a half has no whole part as a double: the double nearest
/// to it is at most a half.
pub proof fn below_a_half_there_is_no_whole(a: nat, d: nat)
    requires
        0 < d,
        2 * a < d,
    ensures
        quotient_units(a, d) / scale(a, d) == 0,
        quotient_units(a, d) < scale(a, d),
{
    if a == 0 {
        assert(scale(0, d) == 1);
        assert(0nat * 1 == 0);
        assert(0nat / d == 0 && 0nat % d == 0) by (nonlinear_arith)
            requires
                d > 0,
        ;
    } else {
        assert(a < d * TWO_53) by (nonlinear_arith)
            requires
                2 * a < d,
                TWO_53 == 9007199254740992,
        ;
        scale_normalises_every_quotient(a, d);
        let p = scale(a, d);
        let u = quotient_units(a, d);
        assert(p > TWO_53) by (nonlinear_arith)
            requires
                d * TWO_52 <= a * p,
                2 * a < d,
                a > 0,
                TWO_52 == 4503599627370496,
                TWO_53 == 9007199254740992,
        ;
        assert(u / p == 0) by (nonlinear_arith)
            requires
                0 <= u < p,
        ;
    }
}

/// The powers of ten grow.
pub proof fn lemma_pow10_grows(n: nat, m: nat)
    requires
        n <= m,
    ensures
        1 <= pow10(n) <= pow10(m),
    decreases m,
{
    if m > 0 {
        if n < m {
            lemma_pow10_grows(n, (m - 1) as nat);
        } else {
            lemma_pow10_grows((n - 1) as nat, (m - 1) as nat);
        }
    }
}

/// The scale looks at the quotient alone: a common factor of `a` and `d`
/// does not matter.
pub proof fn scale_of_a_common_factor(a: nat, d: nat, c: nat)
    requires
        c > 0,
    ensures
        scale(a * c, d * c) == scale(a, d),
    decreases
            (if a < d * TWO_52 {
                d * TWO_52 - a
            } else {
                0
            }),
{
    assert((a * c == 0) == (a == 0)) by (nonlinear_arith)
        requires
            c > 0,
    ;
    assert((a * c >= (d * c) * TWO_52) == (a >= d * TWO_52)) by (nonlinear_arith)
        requires
            c > 0,
    ;
    if !(a == 0 || a >= d * TWO_52) {
        scale_of_a_common_factor(2 * a, d, c);
        assert(2 * (a * c) == (2 * a) * c) by (nonlinear_arith);
    }
}

/// The double nearest to a quotient looks at the quotient alone.
pub proof fn units_of_a_common_factor(a: nat, d: nat, c: nat)
    requires
        c > 0,
        d > 0,
    ensures
        quotient_units(a * c, d * c) == quotient_units(a, d),
        scale(a * c, d * c) == scale(a, d),
{
    scale_of_a_common_factor(a, d, c);
    let p = scale(a, d);
    assert((a * c) * p == (a * p) * c) by (nonlinear_arith);
    lemma_round_scales(a * p, d, c);
}

/// A whole number below 2^53 is a double: in the units of its scale it is
/// the number times the scale, and dividing it by `d` in double precision
/// is dividing the number by `d`.
pub proof fn a_whole_number_is_its_own_double(n: nat, d: nat)
    requires
        0 < n < TWO_53,
        d >= 2,
    ensures
        quotient_units(n, 1) == n * scale(n, 1),
        scale(n, 1) >= 1,
        scale(n, d) == scale(n, 1) * scale(n * scale(n, 1), d),
        quotient_units(n * scale(n, 1), d) == quotient_units(n, d),
    decreases
            (if n < TWO_52 {
                TWO_52 - n
            } else {
                0
            }),
{
    let p = scale(n, 1);
    assert(1nat * TWO_52 == TWO_52);
    if n >= TWO_52 {
        assert(p == 1);
        assert(n * 1 == n);
    } else {
        a_whole_number_is_its_own_double(2 * n, d);
        let q = scale(2 * n, 1);
        assert(p == 2 * q);
        assert(n * (2 * q) == (2 * n) * q) by (nonlinear_arith);
        assert(n < d * TWO_52) by (nonlinear_arith)
            requires
                n < TWO_52,
                d >= 2,
        ;
        assert(scale(n, d) == 2 * scale(2 * n, d));
        assert(2 * (q * scale((2 * n) * q, d)) == (2 * q) * scale((2 * n) * q, d))
            by (nonlinear_arith);
    }
    lemma_round_exact(n * p, 1);
    assert((n * p) * 1 == n * p);
    assert(n * scale(n, d) == (n * p) * scale(n * p, d)) by (nonlinear_arith)
        requires
            scale(n, d) == p * scale(n * p, d),
    ;
}

/// The distance between the doubles around `a / d`, for a quotient of 2^53
/// or more: 2 from 2^53 on, and twice as much each time the quotient doubles.
pub open spec fn quotient_spacing(a: nat, d: nat) -> nat
    decreases
            (if a >= d * TWO_53 {
                a - d * TWO_53 + 1
            } else {
                0
            }),
{
    if d == 0 || a < d * TWO_53 {
        1
    } else {
        2 * quotient_spacing(a, 2 * d)
    }
}

/// The double nearest to `a / d`, for a quotient of 2^53 or more. Such a
/// double is a whole number.
pub open spec fn nearest_double_to_quotient(a: nat, d: nat) -> nat
    recommends
        d > 0,
        a >= d * TWO_53,
{
    round_half_even(a, d * quotient_spacing(a, d)) * quotient_spacing(a, d)
}

/// 10^n.
pub open spec fn pow10(n: nat) -> nat
    decreases n,
{
    if n == 0 {
        1
    } else {
        10 * pow10((n - 1) as nat)
    }
}

/// The double `m / p0`, divided by `d` in double precision and rounded to
/// hundredths, for a power of two `p0`. Dividing a double by a power of two
/// loses nothing, so the quotient of `m / p0` by `d` is the quotient of `m`
/// by `d`, taken in units that are `p0` times as fine.
pub open spec fn scaled_quotient_hundredths(m: nat, d: nat, p0: nat) -> nat
    recommends
        0 < d <= m,
        m < d * TWO_53,
        p0 > 0,
{
    round_half_even(quotient_units(m, d) * 100, scale(m, d) * p0)
}

/// `num / den` rounded to nearest, ties to even.
pub fn round_division(num: u128, den: u128) -> (q: u128)
    requires
        den > 0,
        num / den < u128::MAX,
    ensures
        q == round_half_even(num as nat, den as nat),
{
    let q = num / den;
    let r = num % den;
    // `r > den - r` is `2 * r > den` without the overflow.
    if r > den - r || (r == den - r && q % 2 == 1) {
        q + 1
    } else {
        q
    }
}

/// The double nearest to `n`.
pub fn nearest_double_of(n: u64) -> (x: u128)
    ensures
        x == nearest_double(n as nat),
        n <= x + x,
        x <= n + 4094,
        n < TWO_53 ==> x == n,
        n >= TWO_53 ==> x >= TWO_53,
{
    let mut rest: u64 = n;
    let mut step: u64 = 1;
    while rest >= TWO_53
        invariant
            spacing(n as nat) == step * spacing(rest as nat),
            rest * step <= n,
            n < (rest + 1) * step,
            1 <= step <= 4094,
            step == 1 || rest >= TWO_52,
        decreases rest,
    {
        proof {
            let r = rest as int;
            let s = step as int;
            let sp = spacing((rest / 2) as nat) as int;
            assert(s * (2 * sp) == (s * 2) * sp) by (nonlinear_arith);
            assert((r / 2) * (s * 2) <= r * s) by (nonlinear_arith)
                requires
                    0 <= r,
                    0 <= s,
            ;
            assert((r / 2 + 1) * (s * 2) >= (r + 1) * s) by (nonlinear_arith)
                requires
                    0 <= r,
                    0 <= s,
            ;
            assert(s <= 2047) by (nonlinear_arith)
                requires
                    r * s <= u64::MAX,
                    r >= 9007199254740992,
                    s >= 1,
            ;
        }
        rest = rest / 2;
        step = step * 2;
    }
    assert(spacing(n as nat) == step) by (nonlinear_arith)
        requires
            spacing(n as nat) == step * spacing(rest as nat),
            spacing(rest as nat) == 1,
    ;
    let units = round_division(n as u128, step as u128);
    proof {
        let r = rest as int;
        let s = step as int;
        let u = units as int;
        let m = n as int;
        assert(m / s == r) by (nonlinear_arith)
            requires
                r * s <= m,
                m < (r + 1) * s,
                s >= 1,
        ;
        assert(r <= u <= r + 1);
        assert(s == 1 ==> u == m);
        assert(u * s <= m + s && m <= u * s + u * s) by (nonlinear_arith)
            requires
                r <= u <= r + 1,
                r * s <= m,
                m < (r + 1) * s,
                s > 1 ==> r >= 1,
                s == 1 ==> u == m,
                s >= 1,
                m >= 0,
        ;
        assert(s > 1 ==> u * s >= 9007199254740992) by (nonlinear_arith)
            requires
                u >= r,
                s > 1 ==> r >= 4503599627370496 && s >= 2,
        ;
    }
    units * (step as u128)
}

/// The hundredths that `x / d` shows as, for a double `x`.
pub fn quotient_hundredths_of(x: u128, d: u64) -> (h: u128)
    requires
        0 < d <= x,
        d <= 0x4000_0000,
        x < d * TWO_53,
    ensures
        h == quotient_hundredths(x as nat, d as nat),
{
    assert(d * TWO_52 <= 0x4000_0000 * 4503599627370496) by (nonlinear_arith)
        requires
            d <= 0x4000_0000,
            TWO_52 == 4503599627370496,
    ;
    assert(x <= 0x4000_0000 * 9007199254740992) by (nonlinear_arith)
        requires
            x < d * TWO_53,
            d <= 0x4000_0000,
            TWO_53 == 9007199254740992,
    ;
    let bound: u128 = (d as u128) * (TWO_52 as u128);
    let mut cur: u128 = x;
    let mut p: u128 = 1;
    while cur < bound
        invariant
            0 < d <= x,
            x <= 0x4000_0000 * 9007199254740992,
            bound == d * TWO_52,
            bound <= 0x4000_0000 * 4503599627370496,
            cur == x * p,
            1 <= p <= TWO_53,
            scale(x as nat, d as nat) == p * scale(cur as nat, d as nat),
            p == 1 || cur < 2 * bound,
        decreases
                (if cur < bound {
                    bound - cur
                } else {
                    0
                }),
    {
        proof {
            let pi = p as int;
            let xi = x as int;
            let di = d as int;
            let sc = scale((2 * cur) as nat, d as nat) as int;
            assert(pi * (2 * sc) == (pi * 2) * sc) by (nonlinear_arith);
            assert((xi * pi) * 2 == xi * (pi * 2)) by (nonlinear_arith);
            assert(pi < 4503599627370496 && xi * pi >= 1) by (nonlinear_arith)
                requires
                    xi * pi < di * 4503599627370496,
                    xi >= di,
                    di > 0,
                    pi >= 1,
            ;
        }
        cur = cur * 2;
        p = p * 2;
    }
    assert(scale(x as nat, d as nat) == p) by (nonlinear_arith)
        requires
            scale(x as nat, d as nat) == p * scale(cur as nat, d as nat),
            scale(cur as nat, d as nat) == 1,
    ;
    proof {
        let di = d as int;
        let c = cur as int;
        assert(c / di <= 0x4000_0000 * 9007199254740992) by (nonlinear_arith)
            requires
                c <= 0x4000_0000 * 9007199254740992,
                di >= 1,
                c >= 0,
        ;
    }
    let units = round_division(cur, d as u128);
    round_division(units * 100, p)
}

/// 10^19, the largest power of ten below 2^64.
pub const TEN_19: u64 = 10000000000000000000;

/// The double nearest to `a / d`: its count of units and the units' scale,
/// so that the double is the first divided by the second. The count lies
/// between 2^52 and 2^53.
pub fn units_and_scale_of(a: u128, d: u128) -> (r: (u128, u128))
    requires
        0 < a,
        0 < d <= TEN_19,
        a < d * TWO_53,
    ensures
        r.0 == quotient_units(a as nat, d as nat),
        r.1 == scale(a as nat, d as nat),
        TWO_52 <= r.0 <= TWO_53,
        r.1 >= 1,
        d <= a ==> r.1 <= TWO_53,
{
    assert(d * TWO_52 <= 10000000000000000000 * 4503599627370496 && a < 10000000000000000000
        * 9007199254740992) by (nonlinear_arith)
        requires
            d <= 10000000000000000000,
            a < d * TWO_53,
            TWO_52 == 4503599627370496,
            TWO_53 == 9007199254740992,
    ;
    let bound: u128 = d * (TWO_52 as u128);
    let mut cur: u128 = a;
    let mut p: u128 = 1;
    assert(a * 1 == a);
    while cur < bound
        invariant
            0 < a,
            0 < d,
            a < d * TWO_53,
            bound == d * TWO_52,
            bound <= 10000000000000000000 * 4503599627370496,
            cur == a * p,
            1 <= p <= cur,
            d <= a ==> p <= TWO_53,
            scale(a as nat, d as nat) == p * scale(cur as nat, d as nat),
            cur < 2 * bound,
        decreases
                (if cur < bound {
                    bound - cur
                } else {
                    0
                }),
    {
        proof {
            let pi = p as int;
            let ai = a as int;
            let di = d as int;
            let sc = scale((2 * cur) as nat, d as nat) as int;
            assert(pi * (2 * sc) == (pi * 2) * sc) by (nonlinear_arith);
            assert((ai * pi) * 2 == ai * (pi * 2)) by (nonlinear_arith);
            assert(ai >= di ==> pi < 4503599627370496) by (nonlinear_arith)
                requires
                    ai * pi < di * 4503599627370496,
                    di > 0,
                    pi >= 1,
            ;
        }
        cur = cur * 2;
        p = p * 2;
    }
    assert(scale(a as nat, d as nat) == p) by (nonlinear_arith)
        requires
            scale(a as nat, d as nat) == p * scale(cur as nat, d as nat),
            scale(cur as nat, d as nat) == 1,
    ;
    proof {
        let di = d as int;
        let c = cur as int;
        assert(4503599627370496 <= c / di && c / di < 9007199254740992) by (nonlinear_arith)
            requires
                di * 4503599627370496 <= c,
                c < 2 * (di * 4503599627370496),
                di >= 1,
        ;
    }
    let units = round_division(cur, d);
    (units, p)
}

/// The double nearest to `a / d`, for a quotient of 2^53 or more.
pub fn nearest_double_to_quotient_of(a: u64, d: u128) -> (x: u128)
    requires
        0 < d,
        a >= d * TWO_53,
    ensures
        x == nearest_double_to_quotient(a as nat, d as nat),
        TWO_53 <= x <= 0x2_0000_0000_0000_0000,
{
    let mut step: u128 = 1;
    let mut by: u128 = d;
    assert(d * 1 == d);
    assert(d * TWO_52 <= a) by (nonlinear_arith)
        requires
            a >= d * TWO_53,
            d > 0,
            TWO_52 == 4503599627370496,
            TWO_53 == 9007199254740992,
    ;
    assert(d <= 2048) by (nonlinear_arith)
        requires
            d * TWO_53 <= a,
            a <= u64::MAX,
            TWO_53 == 9007199254740992,
    ;
    while a as u128 >= by * (TWO_53 as u128)
        invariant
            0 < d,
            by == d * step,
            1 <= step,
            1 <= by <= 4096,
            by * TWO_52 <= a,
            quotient_spacing(a as nat, d as nat) == step * quotient_spacing(a as nat, by as nat),
        decreases
                (if a >= by * TWO_53 {
                    a - by * TWO_53 + 1
                } else {
                    0
                }),
    {
        proof {
            let s = step as int;
            let b = by as int;
            let di = d as int;
            let sp = quotient_spacing(a as nat, (2 * by) as nat) as int;
            assert(s * (2 * sp) == (s * 2) * sp) by (nonlinear_arith);
            assert((di * s) * 2 == di * (s * 2)) by (nonlinear_arith);
            assert(b <= 2047 && s <= b) by (nonlinear_arith)
                requires
                    b * 9007199254740992 <= a,
                    a <= u64::MAX,
                    b == di * s,
                    di >= 1,
                    s >= 1,
            ;
        }
        by = by * 2;
        step = step * 2;
    }
    assert(quotient_spacing(a as nat, d as nat) == step) by (nonlinear_arith)
        requires
            quotient_spacing(a as nat, d as nat) == step * quotient_spacing(a as nat, by as nat),
            quotient_spacing(a as nat, by as nat) == 1,
    ;
    proof {
        let b = by as int;
        let ai = a as int;
        assert(4503599627370496 <= ai / b && ai / b < 9007199254740992) by (nonlinear_arith)
            requires
                b * 4503599627370496 <= ai,
                ai < b * 9007199254740992,
                b >= 1,
        ;
        assert(step <= by) by (nonlinear_arith)
            requires
                by == d * step,
                d >= 1,
                step >= 1,
        ;
    }
    let units = round_division(a as u128, by);
    proof {
        let u = units as int;
        let s = step as int;
        let b = by as int;
        let di = d as int;
        let ai = a as int;
        // The loop has run: the quotient is 2^53 or more.
        assert(s >= 2) by (nonlinear_arith)
            requires
                ai < b * 9007199254740992,
                ai >= di * 9007199254740992,
                b == di * s,
                di >= 1,
                s >= 1,
        ;
        assert(u * s >= 9007199254740992 && u * s <= 0x2_0000_0000_0000_0000) by (nonlinear_arith)
            requires
                4503599627370496 <= u <= 9007199254740992,
                2 <= s <= 4096,
        ;
    }
    units * step
}

/// The hundredths that the double `m / p0` shows as in units of `d`.
pub fn scaled_quotient_hundredths_of(m: u128, d: u64, p0: u128) -> (h: u128)
    requires
        0 < d <= m,
        m <= TWO_53,
        d <= 0x4000_0000,
        d >= 2,
        1 <= p0 <= TWO_53,
    ensures
        h == scaled_quotient_hundredths(m as nat, d as nat, p0 as nat),
{
    assert(m < d * TWO_53) by (nonlinear_arith)
        requires
            m <= TWO_53,
            d >= 2,
            TWO_53 == 9007199254740992,
    ;
    let (units, p) = units_and_scale_of(m, d as u128);
    assert(p * p0 <= 9007199254740992 * 9007199254740992 && p * p0 >= 1) by (nonlinear_arith)
        requires
            1 <= p <= 9007199254740992,
            1 <= p0 <= 9007199254740992,
    ;
    round_division(units * 100, p * p0)
}

/// The hundredths that `n` in units of `d` shows as.
pub fn scaled_hundredths_of(n: u64, d: u64) -> (h: u128)
    requires
        0 < d <= n,
        d <= 0x4000_0000,
        n < d * TWO_52,
    ensures
        h == scaled_hundredths(n as nat, d as nat),
{
    let x = nearest_double_of(n);
    assert(x < d * TWO_53) by (nonlinear_arith)
        requires
            x <= n + 4094,
            n < d * TWO_52,
            d >= 1,
            TWO_52 == 4503599627370496,
            TWO_53 == 9007199254740992,
    ;
    quotient_hundredths_of(x, d)
}

} // verus!
