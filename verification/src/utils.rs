//! Human-readable forms of byte counts, durations and row counts.
//!
//! Each function is total. A text that does not read as the number it is
//! meant to hold comes back unchanged. Byte counts and row counts are whole
//! numbers of at most 64 bits; a duration is any number that double
//! precision reads and whose digits fit in 64 bits.

use crate::binary64::{
    a_whole_number_is_its_own_double, below_a_half_there_is_no_whole, small_numbers_are_doubles,
    units_of_a_common_factor, lemma_pow10_grows, nearest_double_to_quotient,
    nearest_double_to_quotient_of, pow10, power_of_two_units_round_once, quotient_hundredths,
    quotient_hundredths_of, quotient_units, round_half_even, scale,
    scaled_hundredths, scaled_hundredths_of, scaled_quotient_hundredths,
    scaled_quotient_hundredths_of, shown_quotient_stays_in_range, units_and_scale_of, TWO_53,
};
use crate::text::{
    chars_of, decimal, decimal_is_read_back, decimal_reading, fixed2, is_digit, padded2,
    parse_u64_chars, parse_u64_text, push_decimal, push_fixed2, push_padded2, read_decimal,
    Decimal,
};
use vstd::arithmetic::power2::lemma2_to64;
use vstd::prelude::*;

verus! {

/// The bytes of a KB.
pub const KIB: u64 = 1024;

/// The bytes of an MB.
pub const MIB: u64 = 1048576;

/// The bytes of a GB.
pub const GIB: u64 = 1073741824;

/// The size of the unit K of counts, and the nanoseconds of a microsecond.
pub const THOUSAND: u64 = 1000;

/// The size of the unit M of counts, and the nanoseconds of a millisecond.
pub const MILLION: u64 = 1000000;

/// The size of the unit B of counts, and the nanoseconds of a second.
pub const BILLION: u64 = 1000000000;

/// The body of a server's answer to an action.
#[derive(Debug)]
pub struct ApiResponse {
    pub message: String,
}

impl Clone for ApiResponse {
    fn clone(&self) -> (out: Self)
        ensures
            out.message@ == self.message@,
    {
        ApiResponse { message: self.message.clone() }
    }
}

/// Whether `s` ends with `suffix`.
pub open spec fn ends_with(s: Seq<char>, suffix: Seq<char>) -> bool {
    s.len() >= suffix.len() && s.subrange(s.len() - suffix.len(), s.len() as int) == suffix
}

/// `s` without the `ns` it ends with, however often that is repeated.
pub open spec fn without_ns(s: Seq<char>) -> Seq<char>
    decreases s.len(),
{
    if ends_with(s, seq!['n', 's']) {
        without_ns(s.take(s.len() - 2))
    } else {
        s
    }
}

/// The unit that a byte count is written in, in bytes: the largest of B, KB,
/// MB and GB that is not above the count, the units being 1024 times each
/// other.
pub open spec fn byte_unit(bytes: nat) -> nat {
    if bytes < KIB {
        1
    } else if bytes < MIB {
        KIB as nat
    } else if bytes < GIB {
        MIB as nat
    } else {
        GIB as nat
    }
}

/// How a unit of bytes is written behind the number.
pub open spec fn byte_unit_name(unit: nat) -> Seq<char> {
    if unit == 1 {
        seq![' ', 'B']
    } else if unit == KIB {
        seq![' ', 'K', 'B']
    } else if unit == MIB {
        seq![' ', 'M', 'B']
    } else {
        seq![' ', 'G', 'B']
    }
}

/// A byte count in its unit: in whole bytes below 1024, with two decimal
/// places from there.
pub open spec fn bytes_text(bytes: nat) -> Seq<char> {
    let unit = byte_unit(bytes);
    if unit == 1 {
        decimal(bytes) + byte_unit_name(unit)
    } else {
        fixed2(scaled_hundredths(bytes, unit)) + byte_unit_name(unit)
    }
}

/// A byte count is written in the largest unit that is not above it, and
/// what is written in KB, MB or GB is the count in that unit, rounded to
/// hundredths: once and to nearest below 2^53 bytes, where double precision
/// holds every count and every quotient by a power of two.
pub proof fn bytes_are_written_in_the_largest_unit(bytes: nat)
    ensures
        byte_unit(bytes) == 1 || byte_unit(bytes) == KIB || byte_unit(bytes) == MIB || byte_unit(
            bytes,
        ) == GIB,
        bytes > 0 ==> byte_unit(bytes) <= bytes,
        byte_unit(bytes) < GIB ==> bytes < 1024 * byte_unit(bytes),
        KIB <= bytes < TWO_53 ==> scaled_hundredths(bytes, byte_unit(bytes)) == round_half_even(
            100 * bytes,
            byte_unit(bytes),
        ),
        KIB <= bytes < TWO_53 ==> 100 <= scaled_hundredths(bytes, byte_unit(bytes)),
        KIB <= bytes < GIB ==> scaled_hundredths(bytes, byte_unit(bytes)) <= 102400,
{
    if KIB <= bytes < TWO_53 {
        lemma2_to64();
        if bytes < MIB {
            power_of_two_units_round_once(bytes, 10);
        } else if bytes < GIB {
            power_of_two_units_round_once(bytes, 20);
        } else {
            power_of_two_units_round_once(bytes, 30);
        }
    }
}

/// The unit that a count or a number of nanoseconds is written in: the
/// largest of 1, a thousand, a million and a billion that is not above it.
pub open spec fn thousands_unit(n: nat) -> nat {
    if n >= BILLION {
        BILLION as nat
    } else if n >= MILLION {
        MILLION as nat
    } else if n >= THOUSAND {
        THOUSAND as nat
    } else {
        1
    }
}

/// How a unit of a count is written behind the number.
pub open spec fn count_unit_name(unit: nat) -> Seq<char> {
    if unit == BILLION {
        seq!['B']
    } else if unit == MILLION {
        seq!['M']
    } else if unit == THOUSAND {
        seq!['K']
    } else {
        Seq::empty()
    }
}

/// How a unit of time is written behind the number, the unit in
/// nanoseconds.
pub open spec fn time_unit_name(unit: nat) -> Seq<char> {
    if unit == BILLION {
        seq!['s']
    } else if unit == MILLION {
        seq!['m', 's']
    } else if unit == THOUSAND {
        seq!['\u{3bc}', 's']
    } else {
        seq!['n', 's']
    }
}

/// A count in billions, millions or thousands with two decimal places, or as
/// it is below 1000.
pub open spec fn count_text(count: nat) -> Seq<char> {
    let unit = thousands_unit(count);
    if unit == 1 {
        decimal(count)
    } else {
        fixed2(scaled_hundredths(count, unit)) + count_unit_name(unit)
    }
}

/// A number of nanoseconds in seconds, milliseconds or microseconds with two
/// decimal places, or in whole nanoseconds below 1000.
pub open spec fn nanos_text(nanos: nat) -> Seq<char> {
    let unit = thousands_unit(nanos);
    if unit == 1 {
        decimal(nanos) + time_unit_name(unit)
    } else {
        fixed2(scaled_hundredths(nanos, unit)) + time_unit_name(unit)
    }
}

/// A count and a number of nanoseconds are written in the largest unit that
/// is not above them, so that what is written lies between 1.00 and 1000.00
/// below a billion, and is at least 1.00 from there.
pub proof fn thousands_are_written_in_the_largest_unit(n: nat)
    ensures
        thousands_unit(n) == 1 || thousands_unit(n) == THOUSAND || thousands_unit(n) == MILLION
            || thousands_unit(n) == BILLION,
        n > 0 ==> thousands_unit(n) <= n,
        thousands_unit(n) < BILLION ==> n < 1000 * thousands_unit(n),
        THOUSAND <= n < TWO_53 ==> 100 <= scaled_hundredths(n, thousands_unit(n)),
        THOUSAND <= n < BILLION ==> scaled_hundredths(n, thousands_unit(n)) <= 100000,
{
    if THOUSAND <= n < BILLION {
        shown_quotient_stays_in_range(n, thousands_unit(n), 1000);
    } else if BILLION <= n < TWO_53 {
        shown_quotient_stays_in_range(n, BILLION as nat, 9007200);
    }
}

/// What `format_number` makes of a text: the count it holds, scaled, or the
/// text itself where it holds none.
pub open spec fn number_text(s: Seq<char>) -> Seq<char> {
    match parse_u64_text(s) {
        Some(count) => count_text(count as nat),
        None => s,
    }
}

/// The most digits behind the point with which a number that fits in 64
/// bits can be a half or more.
pub const MOST_PLACES: usize = 19;

/// The unit in which a double of nanoseconds is written, the double given as
/// `units / scale`; see `thousands_unit`.
pub open spec fn double_unit(units: nat, scale: nat) -> nat {
    if units >= BILLION * scale {
        BILLION as nat
    } else if units >= MILLION * scale {
        MILLION as nat
    } else if units >= THOUSAND * scale {
        THOUSAND as nat
    } else {
        1
    }
}

/// The number of nanoseconds `digits / 10^places` as it is written. The
/// number is taken to the nearest double. Below 1000 the whole nanoseconds of
/// that double are written; from there the double is divided by its unit in
/// double precision and written with two decimal places.
pub open spec fn decimal_nanos_text(digits: nat, places: nat) -> Seq<char> {
    let units = quotient_units(digits, pow10(places));
    let scale = scale(digits, pow10(places));
    let unit = double_unit(units, scale);
    if unit == 1 {
        decimal(units / scale) + time_unit_name(unit)
    } else {
        fixed2(scaled_quotient_hundredths(units, unit, scale)) + time_unit_name(unit)
    }
}

/// The number of nanoseconds `digits / 10^places` as it is written, where
/// it is 2^53 or more: the double nearest to it is a whole number, which is
/// written in seconds.
pub open spec fn long_nanos_text(digits: nat, places: nat) -> Seq<char> {
    fixed2(
        quotient_hundredths(nearest_double_to_quotient(digits, pow10(places)), BILLION as nat),
    ) + time_unit_name(BILLION as nat)
}

/// What is made of the number before the `ns` of the text `s`, where that
/// is no whole number without exponent.
/// - A number with the sign `-` is below every unit and has no whole
///   nanoseconds: it is written as `0ns`. So is `nan`, which no unit is
///   below.
/// - Infinity is written as `infs`.
/// - A whole number of 64 bits, which an exponent may have made one, is
///   written as `nanos_text` says.
/// - A number with digits behind the point is written as
///   `decimal_nanos_text` says below 2^53 and as `long_nanos_text` says from
///   there.
/// - Every other text stays: one that is no number, and a number whose
///   digits do not fit in 64 bits.
pub open spec fn decimal_duration_text(reading: Decimal, s: Seq<char>) -> Seq<char> {
    match reading {
        Decimal::Negative => seq!['0', 'n', 's'],
        Decimal::NotANumber => seq!['0', 'n', 's'],
        Decimal::Infinite => seq!['i', 'n', 'f', 's'],
        Decimal::Digits { digits, places } => if places == 0 {
            nanos_text(digits as nat)
        } else if digits < pow10(places as nat) * TWO_53 {
            decimal_nanos_text(digits as nat, places as nat)
        } else {
            long_nanos_text(digits as nat, places as nat)
        },
        _ => s,
    }
}

/// What `format_duration` makes of a text. One that ends in `ms` stays. One
/// that ends in `ns` is rescaled where a number of nanoseconds stands before
/// the `ns`: a whole number of 64 bits, or a number as
/// `decimal_duration_text` reads it. Every other text stays.
pub open spec fn duration_text(s: Seq<char>) -> Seq<char> {
    if ends_with(s, seq!['m', 's']) {
        s
    } else if ends_with(s, seq!['n', 's']) {
        match parse_u64_text(without_ns(s)) {
            Some(nanos) => nanos_text(nanos as nat),
            None => decimal_duration_text(decimal_reading(without_ns(s)), s),
        }
    } else {
        s
    }
}

/// A count that is written in decimal is read and rescaled.
pub proof fn written_counts_are_rescaled(count: nat)
    requires
        count <= u64::MAX,
    ensures
        number_text(decimal(count)) == count_text(count),
{
    decimal_is_read_back(count);
}

/// A duration in whole nanoseconds, written in decimal with `ns` behind it,
/// is rescaled.
pub proof fn whole_nanoseconds_are_rescaled(nanos: nat)
    requires
        nanos <= u64::MAX,
    ensures
        duration_text(decimal(nanos) + seq!['n', 's']) == nanos_text(nanos),
{
    decimal_is_read_back(nanos);
    let digits = decimal(nanos);
    let text = digits + seq!['n', 's'];
    let tail = text.subrange(text.len() - 2, text.len() as int);
    assert(tail =~= seq!['n', 's']);
    assert(tail[0] != 'm');
    assert(text.take(text.len() - 2) =~= digits);
    // What is left ends in a digit, not in `ns`.
    if digits.len() >= 2 {
        let end = digits.subrange(digits.len() - 2, digits.len() as int);
        assert(end[1] == digits[digits.len() - 1]);
        assert(is_digit(digits[digits.len() - 1]));
        assert(end != seq!['n', 's']);
    }
    assert(without_ns(digits) == digits);
    assert(without_ns(text) == digits);
}

/// A whole number of nanoseconds below 2^53 is written alike with and
/// without zeros behind a point: the number with digits behind the point
/// goes another way to its double, and the way makes no difference.
pub proof fn zeros_behind_the_point_change_nothing(nanos: nat, places: nat)
    requires
        nanos < TWO_53,
    ensures
        decimal_nanos_text(nanos * pow10(places), places) == nanos_text(nanos),
{
    let ten = pow10(places);
    lemma_pow10_grows(0, places);
    units_of_a_common_factor(nanos, 1, ten);
    assert(1 * ten == ten);
    let p = scale(nanos, 1);
    let units = quotient_units(nanos, 1);
    if nanos == 0 {
        assert(p == 1);
        assert(0nat * 1 == 0);
        assert(units == 0);
    } else {
        small_numbers_are_doubles(nanos);
        let unit = thousands_unit(nanos);
        a_whole_number_is_its_own_double(nanos, if unit == 1 {
            2
        } else {
            unit
        });
        assert(units == nanos * p);
        assert(double_unit(units, p) == unit) by (nonlinear_arith)
            requires
                units == nanos * p,
                p >= 1,
                unit == (if nanos >= 1000000000 {
                    1000000000nat
                } else if nanos >= 1000000 {
                    1000000nat
                } else if nanos >= 1000 {
                    1000nat
                } else {
                    1nat
                }),
                double_unit(units, p) == (if units >= 1000000000 * p {
                    1000000000nat
                } else if units >= 1000000 * p {
                    1000000nat
                } else if units >= 1000 * p {
                    1000nat
                } else {
                    1nat
                }),
        ;
        if unit == 1 {
            assert(units / p == nanos) by (nonlinear_arith)
                requires
                    units == nanos * p,
                    p >= 1,
            ;
        } else {
            assert(scale(units, unit) * p == scale(nanos, unit)) by (nonlinear_arith)
                requires
                    scale(nanos, unit) == p * scale(units, unit),
            ;
        }
    }
}

/// A duration that ends in `ms` stays as it is, whatever stands before the
/// `ms`.
pub proof fn milliseconds_pass_through(s: Seq<char>)
    ensures
        duration_text(s + seq!['m', 's']) == s + seq!['m', 's'],
{
    let text = s + seq!['m', 's'];
    assert(text.subrange(text.len() - 2, text.len() as int) =~= seq!['m', 's']);
}

/// A time of day as `HH:MM:SS`, each part in at least two digits.
pub open spec fn clock_text(hours: nat, minutes: nat, seconds: nat) -> Seq<char> {
    padded2(hours) + seq![':'] + padded2(minutes) + seq![':'] + padded2(seconds)
}

/// Writes a time of day as `HH:MM:SS`. The parts are those of the viewer's
/// local time, which the caller reads from the clock.
pub fn format_clock(hours: u32, minutes: u32, seconds: u32) -> (out: String)
    ensures
        out@ == clock_text(hours as nat, minutes as nat, seconds as nat),
{
    let mut out = String::new();
    push_padded2(&mut out, hours);
    out.push(':');
    push_padded2(&mut out, minutes);
    out.push(':');
    push_padded2(&mut out, seconds);
    out
}

/// Writes a byte count in B, KB, MB or GB.
pub fn format_bytes(bytes: u64) -> (out: String)
    ensures
        out@ == bytes_text(bytes as nat),
{
    let mut out = String::new();
    if bytes < KIB {
        push_decimal(&mut out, bytes as u128);
        out.push(' ');
        out.push('B');
    } else if bytes < MIB {
        push_fixed2(&mut out, scaled_hundredths_of(bytes, KIB));
        out.push(' ');
        out.push('K');
        out.push('B');
    } else if bytes < GIB {
        push_fixed2(&mut out, scaled_hundredths_of(bytes, MIB));
        out.push(' ');
        out.push('M');
        out.push('B');
    } else {
        push_fixed2(&mut out, scaled_hundredths_of(bytes, GIB));
        out.push(' ');
        out.push('G');
        out.push('B');
    }
    out
}

/// Writes a count as it is, or in thousands, millions or billions.
pub fn format_count(count: u64) -> (out: String)
    ensures
        out@ == count_text(count as nat),
{
    let mut out = String::new();
    if count >= BILLION {
        push_fixed2(&mut out, scaled_hundredths_of(count, BILLION));
        out.push('B');
    } else if count >= MILLION {
        push_fixed2(&mut out, scaled_hundredths_of(count, MILLION));
        out.push('M');
    } else if count >= THOUSAND {
        push_fixed2(&mut out, scaled_hundredths_of(count, THOUSAND));
        out.push('K');
    } else {
        push_decimal(&mut out, count as u128);
    }
    out
}

/// Writes a number of nanoseconds in the unit that suits it.
pub fn format_nanos(nanos: u64) -> (out: String)
    ensures
        out@ == nanos_text(nanos as nat),
{
    let mut out = String::new();
    if nanos >= BILLION {
        push_fixed2(&mut out, scaled_hundredths_of(nanos, BILLION));
        out.push('s');
    } else if nanos >= MILLION {
        push_fixed2(&mut out, scaled_hundredths_of(nanos, MILLION));
        out.push('m');
        out.push('s');
    } else if nanos >= THOUSAND {
        push_fixed2(&mut out, scaled_hundredths_of(nanos, THOUSAND));
        out.push('\u{3bc}');
        out.push('s');
    } else {
        push_decimal(&mut out, nanos as u128);
        out.push('n');
        out.push('s');
    }
    out
}

/// Rescales a row count given as text; a text that is no unsigned integer of
/// 64 bits comes back unchanged.
pub fn format_number(num_str: &str) -> (out: String)
    ensures
        out@ == number_text(num_str@),
{
    let chars = chars_of(num_str);
    match parse_u64_chars(&chars) {
        Some(count) => format_count(count),
        None => num_str.to_owned(),
    }
}

/// Rescales a duration given as text; see `duration_text`.
///
/// The number before the `ns` is read as double precision reads a number:
/// with a sign, with digits behind a point, with an exponent, as infinity
/// and as `nan`. It departs from double precision in one thing: a number
/// whose digits, taken together as a whole number and with the zeros that
/// an exponent puts behind them, do not fit in 64 bits is not read, and the
/// text stays as it is. Double precision would hold the nearest double of
/// such a number.
pub fn format_duration(duration_str: &str) -> (out: String)
    ensures
        out@ == duration_text(duration_str@),
{
    let mut chars = chars_of(duration_str);
    let n = chars.len();
    if n < 2 || chars[n - 1] != 's' {
        return duration_str.to_owned();
    }
    if chars[n - 2] == 'm' {
        assert(duration_str@.subrange(n - 2, n as int) == seq!['m', 's']);
        return duration_str.to_owned();
    }
    if chars[n - 2] != 'n' {
        return duration_str.to_owned();
    }
    assert(duration_str@.subrange(n - 2, n as int) == seq!['n', 's']);
    let mut end: usize = n;
    assert(chars@.take(n as int) == chars@);
    while end >= 2 && chars[end - 2] == 'n' && chars[end - 1] == 's'
        invariant
            end <= n == chars.len(),
            chars@ == duration_str@,
            without_ns(chars@) == without_ns(chars@.take(end as int)),
        decreases end,
    {
        proof {
            let cur = chars@.take(end as int);
            assert(cur.subrange(cur.len() - 2, cur.len() as int) == seq!['n', 's']);
            assert(cur.take(cur.len() - 2) == chars@.take(end - 2));
        }
        end -= 2;
    }
    proof {
        let cur = chars@.take(end as int);
        if cur.len() >= 2 {
            let tail = cur.subrange(cur.len() - 2, cur.len() as int);
            assert(tail[0] == chars@[end - 2]);
            assert(tail[1] == chars@[end - 1]);
            assert(tail != seq!['n', 's']);
        }
        assert(without_ns(cur) == cur);
    }
    chars.truncate(end);
    match parse_u64_chars(&chars) {
        Some(nanos) => format_nanos(nanos),
        None => match read_decimal(&chars) {
            Decimal::Negative | Decimal::NotANumber => {
                let mut out = String::new();
                out.push('0');
                out.push('n');
                out.push('s');
                out
            },
            Decimal::Infinite => {
                let mut out = String::new();
                out.push('i');
                out.push('n');
                out.push('f');
                out.push('s');
                out
            },
            Decimal::Digits { digits, places } => {
                if places == 0 {
                    format_nanos(digits)
                } else if places <= MOST_PLACES {
                    let ten = power_of_ten(places);
                    if (digits as u128) < ten * (TWO_53 as u128) {
                        format_decimal_nanos(digits, places)
                    } else {
                        let double = nearest_double_to_quotient_of(digits, ten);
                        assert(double < BILLION * TWO_53) by (nonlinear_arith)
                            requires
                                double <= 0x2_0000_0000_0000_0000,
                                BILLION == 1000000000,
                                TWO_53 == 9007199254740992,
                        ;
                        let mut out = String::new();
                        push_fixed2(&mut out, quotient_hundredths_of(double, BILLION));
                        out.push('s');
                        out
                    }
                } else {
                    // With 20 digits or more behind the point a number of 64
                    // bits is below a half.
                    proof {
                        reveal_with_fuel(pow10, 21);
                        assert(pow10(20) == 100000000000000000000);
                        lemma_pow10_grows(20, places as nat);
                        let d = pow10(places as nat);
                        below_a_half_there_is_no_whole(digits as nat, d);
                        assert(digits < d * TWO_53) by (nonlinear_arith)
                            requires
                                2 * digits < d,
                                TWO_53 == 9007199254740992,
                        ;
                        let units = quotient_units(digits as nat, d);
                        let scale = scale(digits as nat, d);
                        assert(units < 1000 * scale);
                        assert(double_unit(units, scale) == 1);
                    }
                    let mut out = String::new();
                    push_decimal(&mut out, 0);
                    out.push('n');
                    out.push('s');
                    out
                }
            },
            _ => duration_str.to_owned(),
        },
    }
}

/// 10^places.
fn power_of_ten(places: usize) -> (ten: u128)
    requires
        places <= MOST_PLACES,
    ensures
        ten == pow10(places as nat),
        0 < ten <= 10000000000000000000,
{
    let mut ten: u128 = 1;
    let mut i: usize = 0;
    proof {
        reveal_with_fuel(pow10, 20);
        assert(pow10(19) == 10000000000000000000);
    }
    while i < places
        invariant
            i <= places <= MOST_PLACES,
            ten == pow10(i as nat),
            ten >= 1,
            ten * pow10((MOST_PLACES - i) as nat) == 10000000000000000000,
        decreases places - i,
    {
        proof {
            let rest = pow10((MOST_PLACES - i) as nat) as int;
            let less = pow10((MOST_PLACES - i - 1) as nat) as int;
            assert(rest == 10 * less);
            lemma_pow10_grows(0, (MOST_PLACES - i - 1) as nat);
            assert(ten * (10 * less) == (ten * 10) * less) by (nonlinear_arith);
            assert(ten * 10 <= 10000000000000000000) by (nonlinear_arith)
                requires
                    (ten * 10) * less == 10000000000000000000,
                    less >= 1,
                    ten >= 1,
            ;
        }
        ten = ten * 10;
        i += 1;
    }
    proof {
        lemma_pow10_grows(0, (MOST_PLACES - places) as nat);
        let rest = pow10((MOST_PLACES - places) as nat) as int;
        assert(ten <= 10000000000000000000) by (nonlinear_arith)
            requires
                ten * rest == 10000000000000000000,
                rest >= 1,
                ten >= 1,
        ;
    }
    ten
}

/// Writes the number of nanoseconds `digits / 10^places`; see
/// `decimal_nanos_text`.
fn format_decimal_nanos(digits: u64, places: usize) -> (out: String)
    requires
        places <= MOST_PLACES,
        digits < pow10(places as nat) * TWO_53,
    ensures
        out@ == decimal_nanos_text(digits as nat, places as nat),
{
    let ten = power_of_ten(places);
    let mut out = String::new();
    if digits == 0 {
        proof {
            let d = ten as nat;
            assert(scale(0, d) == 1);
            assert(0nat * 1 == 0);
            assert(0nat / d == 0 && 0nat % d == 0) by (nonlinear_arith)
                requires
                    d > 0,
            ;
            assert(quotient_units(0, d) == 0);
            assert(double_unit(0, 1) == 1);
        }
        push_decimal(&mut out, 0);
        out.push('n');
        out.push('s');
        return out;
    }
    let (units, scale) = units_and_scale_of(digits as u128, ten);
    let small = scale <= TWO_53 as u128;
    proof {
        let u = units as int;
        let sc = scale as int;
        // A double whose scale is above 2^53 is below 1.
        assert(!small ==> u < 1000 * sc) by (nonlinear_arith)
            requires
                u <= 9007199254740992,
                !small ==> sc > 9007199254740992,
        ;
        assert(small ==> 1000000000 * sc <= 1000000000 * 9007199254740992) by (nonlinear_arith)
            requires
                small ==> sc <= 9007199254740992,
                sc >= 1,
        ;
        assert(u >= 1000 * sc ==> sc <= 9007199254740992) by (nonlinear_arith)
            requires
                u <= 9007199254740992,
                sc >= 1,
        ;
    }
    if small && units >= (BILLION as u128) * scale {
        push_fixed2(&mut out, scaled_quotient_hundredths_of(units, BILLION, scale));
        out.push('s');
    } else if small && units >= (MILLION as u128) * scale {
        push_fixed2(&mut out, scaled_quotient_hundredths_of(units, MILLION, scale));
        out.push('m');
        out.push('s');
    } else if small && units >= (THOUSAND as u128) * scale {
        push_fixed2(&mut out, scaled_quotient_hundredths_of(units, THOUSAND, scale));
        out.push('\u{3bc}');
        out.push('s');
    } else {
        push_decimal(&mut out, units / scale);
        out.push('n');
        out.push('s');
    }
    out
}


} // verus!
