//! Characters, decimal digits and the building of strings.

use crate::binary64::{lemma_pow10_grows, pow10};
use crate::search::{first_place, lemma_first_place, lemma_first_place_is};
use vstd::prelude::*;

verus! {

/// `String::push` of the standard library: the character is appended at the
/// end and nothing else changes.
pub assume_specification[ String::push ](s: &mut String, c: char)
    ensures
        final(s)@ == old(s)@.push(c),
;

/// The characters of `s`, in order.
pub fn chars_of(s: &str) -> (out: Vec<char>)
    ensures
        out@ == s@,
{
    let mut out: Vec<char> = Vec::new();
    for c in it: s.chars()
        invariant
            out@ == it.seq().take(it.index() as int),
            it.seq() == s@,
    {
        out.push(c);
    }
    out
}

/// Appends `chars[from..to]` to `out`.
pub fn push_chars(out: &mut String, chars: &Vec<char>, from: usize, to: usize)
    requires
        from <= to <= chars.len(),
    ensures
        final(out)@ == old(out)@ + chars@.subrange(from as int, to as int),
{
    let mut i: usize = from;
    while i < to
        invariant
            from <= i <= to <= chars.len(),
            out@ == old(out)@ + chars@.subrange(from as int, i as int),
        decreases to - i,
    {
        out.push(chars[i]);
        i += 1;
    }
}

/// The string that holds exactly `chars`.
pub fn string_of(chars: &Vec<char>) -> (out: String)
    ensures
        out@ == chars@,
{
    let mut out = String::new();
    push_chars(&mut out, chars, 0, chars.len());
    out
}

/// Whether `c` is one of the ten ASCII digits.
pub open spec fn is_digit(c: char) -> bool {
    '0' <= c && c <= '9'
}

/// The value of the ASCII digit `c`.
pub open spec fn digit_value(c: char) -> nat
    recommends
        is_digit(c),
{
    (c as nat - '0' as nat) as nat
}

/// The ASCII digit that stands for `d`.
pub open spec fn digit_char(d: nat) -> char
    recommends
        d < 10,
{
    if d == 0 {
        '0'
    } else if d == 1 {
        '1'
    } else if d == 2 {
        '2'
    } else if d == 3 {
        '3'
    } else if d == 4 {
        '4'
    } else if d == 5 {
        '5'
    } else if d == 6 {
        '6'
    } else if d == 7 {
        '7'
    } else if d == 8 {
        '8'
    } else {
        '9'
    }
}

/// The number that the digit string `s` writes, leading zeros allowed.
pub open spec fn digits_value(s: Seq<char>) -> nat
    decreases s.len(),
{
    if s.len() == 0 {
        0
    } else {
        digits_value(s.drop_last()) * 10 + digit_value(s.last())
    }
}

/// Whether every character of `s` is an ASCII digit.
pub open spec fn all_digits(s: Seq<char>) -> bool {
    forall|i: int| 0 <= i < s.len() ==> is_digit(#[trigger] s[i])
}

/// `n` in decimal, without leading zeros.
pub open spec fn decimal(n: nat) -> Seq<char>
    decreases n,
{
    if n < 10 {
        seq![digit_char(n)]
    } else {
        decimal(n / 10).push(digit_char(n % 10))
    }
}

/// `n` in decimal, with a leading zero where it has a single digit.
pub open spec fn padded2(n: nat) -> Seq<char> {
    if n < 10 {
        seq!['0', digit_char(n)]
    } else {
        decimal(n)
    }
}

/// A count of hundredths written with two decimal places: `fixed2(150)` is
/// `1.50`.
pub open spec fn fixed2(hundredths: nat) -> Seq<char> {
    decimal(hundredths / 100) + seq![
        '.',
        digit_char((hundredths / 10) % 10),
        digit_char(hundredths % 10),
    ]
}

/// What an unsigned decimal integer reads as: an optional `+`, then one or
/// more ASCII digits. Anything else is no number.
pub open spec fn parse_unsigned(s: Seq<char>) -> Option<nat> {
    let digits = if s.len() > 0 && s[0] == '+' {
        s.subrange(1, s.len() as int)
    } else {
        s
    };
    if digits.len() > 0 && all_digits(digits) {
        Some(digits_value(digits))
    } else {
        None
    }
}

/// `parse_unsigned`, kept to the numbers that fit in 64 bits.
pub open spec fn parse_u64_text(s: Seq<char>) -> Option<u64> {
    match parse_unsigned(s) {
        Some(n) => if n <= u64::MAX {
            Some(n as u64)
        } else {
            None
        },
        None => None,
    }
}

/// The condition of being the decimal point.
pub open spec fn is_point() -> spec_fn(char) -> bool {
    |c: char| c == '.'
}

/// The condition of being the mark of an exponent.
pub open spec fn is_exponent_mark() -> spec_fn(char) -> bool {
    |c: char| c == 'e' || c == 'E'
}

/// Whether a text starts with the sign `-`.
pub open spec fn has_minus(s: Seq<char>) -> bool {
    s.len() > 0 && s[0] == '-'
}

/// A text without the sign `+` or `-` that it starts with.
pub open spec fn unsigned_part(s: Seq<char>) -> Seq<char> {
    if s.len() > 0 && (s[0] == '-' || s[0] == '+') {
        s.skip(1)
    } else {
        s
    }
}

/// The digits before and behind the point of a number without sign and
/// exponent: digits, and optionally a point with digits behind it. Either
/// run of digits may be empty, not both.
pub open spec fn mantissa_parts(s: Seq<char>) -> Option<(Seq<char>, Seq<char>)> {
    let point = first_place(s, is_point());
    let whole = s.take(point);
    let fraction = if point < s.len() {
        s.skip(point + 1)
    } else {
        Seq::empty()
    };
    if all_digits(whole) && all_digits(fraction) && whole.len() + fraction.len() > 0 {
        Some((whole, fraction))
    } else {
        None
    }
}

/// What an exponent is worth: an optional sign and one or more digits.
pub open spec fn exponent_value(s: Seq<char>) -> Option<int> {
    let digits = unsigned_part(s);
    if digits.len() > 0 && all_digits(digits) {
        Some(
            if has_minus(s) {
                -(digits_value(digits) as int)
            } else {
                digits_value(digits) as int
            },
        )
    } else {
        None
    }
}

/// The parts of a decimal number.
pub struct DecimalParts {
    /// Whether the number has the sign `-`.
    pub negative: bool,
    /// The digits before the point.
    pub whole: Seq<char>,
    /// The digits behind the point.
    pub fraction: Seq<char>,
    /// The exponent: by how many places the point is moved to the right.
    pub shift: int,
}

/// The parts of a decimal number: an optional sign, digits with an optional
/// point among them, and optionally `e` or `E` with an exponent.
pub open spec fn decimal_parts(s: Seq<char>) -> Option<DecimalParts> {
    let body = unsigned_part(s);
    let mark = first_place(body, is_exponent_mark());
    let shift = if mark < body.len() {
        exponent_value(body.skip(mark + 1))
    } else {
        Some(0int)
    };
    match (mantissa_parts(body.take(mark)), shift) {
        (Some((whole, fraction)), Some(shift)) => Some(
            DecimalParts { negative: has_minus(s), whole, fraction, shift },
        ),
        _ => None,
    }
}

/// With this many digits behind the point, or more, a number whose digits
/// fit in 64 bits is below a half.
pub const FAR_BEHIND: usize = 20;

/// Whether a text is a word, written in small or in capital letters or in
/// both: the word is given in small letters and in capital letters.
pub open spec fn is_word(s: Seq<char>, small: Seq<char>, capital: Seq<char>) -> bool {
    s.len() == small.len() && forall|i: int|
        0 <= i < s.len() ==> #[trigger] s[i] == small[i] || s[i] == capital[i]
}

/// Whether a text without sign names infinity: `inf` or `infinity`, in
/// small or capital letters.
pub open spec fn names_infinity(s: Seq<char>) -> bool {
    is_word(s, "inf"@, "INF"@) || is_word(s, "infinity"@, "INFINITY"@)
}

/// Whether a text without sign says that it is no number: `nan`, in small
/// or capital letters.
pub open spec fn names_no_number(s: Seq<char>) -> bool {
    is_word(s, "nan"@, "NAN"@)
}

/// What a text reads as, taken as a decimal number.
#[derive(Clone, Copy, Debug, PartialEq, Eq, Structural)]
pub enum Decimal {
    /// The text is no decimal number.
    NoNumber,
    /// The text is `nan`, with or without a sign.
    NotANumber,
    /// The text names infinity and has no sign `-`.
    Infinite,
    /// A number with the sign `-`, infinity among them.
    Negative,
    /// The number `digits / 10^places`. More than `FAR_BEHIND` places are
    /// counted as `FAR_BEHIND`; 0 is `0 / 10^0`.
    Digits { digits: u64, places: usize },
    /// A number without the sign `-` whose digits, taken together as a whole
    /// number and with the zeros that the exponent puts behind them, do not
    /// fit in 64 bits.
    Long,
}

/// The number with the digits `digits`, taken together as a whole number,
/// of which `places` stand behind the point, and with the exponent `shift`.
pub open spec fn reading_of(negative: bool, digits: nat, places: nat, shift: int) -> Decimal {
    let behind = places - shift;
    if negative {
        Decimal::Negative
    } else if digits == 0 {
        Decimal::Digits { digits: 0, places: 0 }
    } else if behind >= 0 {
        if digits <= u64::MAX {
            Decimal::Digits {
                digits: digits as u64,
                places: if behind >= FAR_BEHIND {
                    FAR_BEHIND
                } else {
                    behind as usize
                },
            }
        } else {
            Decimal::Long
        }
    } else if digits * pow10((-behind) as nat) <= u64::MAX {
        Decimal::Digits { digits: (digits * pow10((-behind) as nat)) as u64, places: 0 }
    } else {
        Decimal::Long
    }
}

/// What a text reads as, taken as a decimal number.
pub open spec fn decimal_reading(s: Seq<char>) -> Decimal {
    match decimal_parts(s) {
        None => if names_no_number(unsigned_part(s)) {
            Decimal::NotANumber
        } else if names_infinity(unsigned_part(s)) {
            if has_minus(s) {
                Decimal::Negative
            } else {
                Decimal::Infinite
            }
        } else {
            Decimal::NoNumber
        },
        Some(parts) => reading_of(
            parts.negative,
            digits_value(parts.whole + parts.fraction),
            parts.fraction.len(),
            parts.shift,
        ),
    }
}

/// A run of digits is worth less than the power of ten of its length.
pub proof fn lemma_digits_value_below(s: Seq<char>)
    requires
        all_digits(s),
    ensures
        digits_value(s) < pow10(s.len()),
    decreases s.len(),
{
    if s.len() > 0 {
        let front = s.drop_last();
        assert forall|i: int| 0 <= i < front.len() implies is_digit(#[trigger] front[i]) by {
            assert(front[i] == s[i]);
        }
        lemma_digits_value_below(front);
        assert(is_digit(s[s.len() - 1]));
        assert(pow10(s.len()) == 10 * pow10((s.len() - 1) as nat));
    }
}

/// Reads digits from `chars[from..to]`, as far as there are digits, on top
/// of the digits that were read before. Gives the place where the digits
/// end and the value of all digits; no value where that does not fit in 64
/// bits.
fn read_digits(
    chars: &Vec<char>,
    from: usize,
    to: usize,
    before: Option<u64>,
    Ghost(read): Ghost<Seq<char>>,
) -> (r: (usize, Option<u64>))
    requires
        from <= to <= chars.len(),
        match before {
            Some(value) => digits_value(read) == value,
            None => digits_value(read) > u64::MAX,
        },
    ensures
        from <= r.0 <= to,
        all_digits(chars@.subrange(from as int, r.0 as int)),
        r.0 < to ==> !is_digit(chars@[r.0 as int]),
        match r.1 {
            Some(value) => digits_value(read + chars@.subrange(from as int, r.0 as int)) == value,
            None => digits_value(read + chars@.subrange(from as int, r.0 as int)) > u64::MAX,
        },
{
    let mut i: usize = from;
    let mut value = before;
    assert(read + chars@.subrange(from as int, from as int) == read);
    while i < to && chars[i] >= '0' && chars[i] <= '9'
        invariant
            from <= i <= to <= chars.len(),
            all_digits(chars@.subrange(from as int, i as int)),
            match value {
                Some(v) => digits_value(read + chars@.subrange(from as int, i as int)) == v,
                None => digits_value(read + chars@.subrange(from as int, i as int)) > u64::MAX,
            },
        decreases to - i,
    {
        let c = chars[i];
        let d: u64 = (c as u32 - '0' as u32) as u64;
        proof {
            let so_far = read + chars@.subrange(from as int, i as int);
            let next = read + chars@.subrange(from as int, i + 1);
            assert(next.drop_last() == so_far);
            assert(next.last() == c);
            assert(digits_value(next) == digits_value(so_far) * 10 + d);
            let digits = chars@.subrange(from as int, i + 1);
            assert forall|k: int| 0 <= k < digits.len() implies is_digit(#[trigger] digits[k]) by {
                if k < i - from {
                    assert(digits[k] == chars@.subrange(from as int, i as int)[k]);
                }
            }
        }
        value = match value {
            Some(v) => if v > (u64::MAX - d) / 10 {
                None
            } else {
                Some(v * 10 + d)
            },
            None => None,
        };
        i += 1;
    }
    (i, value)
}

/// Reads the digits of `chars[from..to]` as a number without sign and
/// exponent: the value of its digits, taken together, and the number of
/// digits behind the point. Nothing where it is no such number.
fn read_mantissa(chars: &Vec<char>, from: usize, to: usize) -> (r: Option<(Option<u64>, usize)>)
    requires
        from <= to <= chars.len(),
    ensures
        match r {
            Some((value, places)) => mantissa_parts(chars@.subrange(from as int, to as int))
                matches Some((whole, fraction)) && places == fraction.len() && places <= to - from
                && (match value {
                Some(v) => digits_value(whole + fraction) == v,
                None => digits_value(whole + fraction) > u64::MAX,
            }),
            None => mantissa_parts(chars@.subrange(from as int, to as int)) is None,
        },
{
    let ghost body = chars@.subrange(from as int, to as int);
    assert(digits_value(Seq::<char>::empty()) == 0);
    let (point, whole_value) = read_digits(chars, from, to, Some(0), Ghost(Seq::empty()));
    let ghost whole = chars@.subrange(from as int, point as int);
    assert(Seq::<char>::empty() + whole == whole);
    proof {
        // Up to `point` there are digits only, so no point.
        assert forall|j: int| 0 <= j < point - from implies !is_point()(#[trigger] body[j]) by {
            assert(body[j] == whole[j]);
            assert(is_digit(whole[j]));
        }
        lemma_first_place(body, is_point());
    }
    if point < to && chars[point] != '.' {
        proof {
            // The digits end at something that is neither a digit nor the
            // point: it stands within the part before the point.
            let at = first_place(body, is_point());
            assert(body[point - from] == chars@[point as int]);
            if at <= point - from {
                assert(is_point()(body[at]));
                if at < point - from {
                    assert(!is_point()(body[at]));
                }
                assert(false);
            }
            let spec_whole = body.take(at);
            assert(spec_whole[point - from] == chars@[point as int]);
            assert(!is_digit(spec_whole[point - from]));
            assert(!all_digits(spec_whole));
        }
        return None;
    }
    proof {
        if point < to {
            assert(body[point - from] == chars@[point as int]);
        }
        lemma_first_place_is(body, is_point(), point - from);
        assert(body.take(point - from) == whole);
    }
    let (end, value) = if point < to {
        read_digits(chars, point + 1, to, whole_value, Ghost(whole))
    } else {
        assert(whole + Seq::<char>::empty() == whole);
        (to, whole_value)
    };
    let ghost fraction = if point < to {
        chars@.subrange(point + 1, end as int)
    } else {
        Seq::<char>::empty()
    };
    if end < to {
        proof {
            let spec_fraction = body.skip(point - from + 1);
            assert(spec_fraction[end - point - 1] == chars@[end as int]);
            assert(!is_digit(spec_fraction[end - point - 1]));
            assert(!all_digits(spec_fraction));
        }
        return None;
    }
    proof {
        if point < to {
            assert(body.skip(point - from + 1) == fraction);
        }
        assert(first_place(body, is_point()) == point - from);
        assert(body.len() == to - from);
        assert(whole.len() == point - from);
        assert(all_digits(whole) && all_digits(fraction));
        assert(mantissa_parts(body) == (if whole.len() + fraction.len() > 0 {
            Some((whole, fraction))
        } else {
            None
        }));
    }
    let places: usize = if point < to {
        to - point - 1
    } else {
        0
    };
    if (point - from) + places == 0 {
        return None;
    }
    Some((value, places))
}

/// Reads `chars[from..]` as an exponent: whether it has the sign `-`, and
/// what its digits are worth, which is no value where that does not fit in
/// 64 bits. Nothing where it is no exponent.
fn read_exponent(chars: &Vec<char>, from: usize) -> (r: Option<(bool, Option<u64>)>)
    requires
        from <= chars.len(),
    ensures
        match r {
            Some((negative, value)) => exponent_value(chars@.skip(from as int)) matches Some(
                shift,
            ) && (negative ==> shift <= 0) && (!negative ==> shift >= 0) && (match value {
                Some(v) => shift == v || shift == -v,
                None => (shift > u64::MAX || shift < -(u64::MAX as int)) && from + 20
                    <= chars.len(),
            }),
            None => exponent_value(chars@.skip(from as int)) is None,
        },
{
    let n = chars.len();
    let ghost text = chars@.skip(from as int);
    let negative = from < n && chars[from] == '-';
    let start: usize = if from < n && (chars[from] == '-' || chars[from] == '+') {
        from + 1
    } else {
        from
    };
    proof {
        if from < n {
            assert(text[0] == chars@[from as int]);
        }
        assert(text.skip(0) == text);
        assert(unsigned_part(text) == chars@.subrange(start as int, n as int));
    }
    assert(digits_value(Seq::<char>::empty()) == 0);
    let (end, value) = read_digits(chars, start, n, Some(0), Ghost(Seq::empty()));
    let ghost digits = chars@.subrange(start as int, n as int);
    assert(Seq::<char>::empty() + chars@.subrange(start as int, end as int) == chars@.subrange(
        start as int,
        end as int,
    ));
    if end < n {
        proof {
            assert(digits[end - start] == chars@[end as int]);
            assert(!is_digit(digits[end - start]));
        }
        return None;
    }
    if start == n {
        return None;
    }
    proof {
        if value is None {
            // Digits that do not fit in 64 bits are 20 at the least.
            lemma_digits_value_below(digits);
            reveal_with_fuel(pow10, 20);
            assert(pow10(19) == 10000000000000000000);
            if digits.len() <= 19 {
                lemma_pow10_grows(digits.len(), 19);
            }
        }
    }
    Some((negative, value))
}

/// Says which number it is that has the digits `value`, `places` of them
/// behind the point, and the exponent `shift` with its sign; see
/// `reading_of`.
fn settle(
    value: Option<u64>,
    places: usize,
    to_the_left: bool,
    shift: Option<u64>,
    Ghost(digits): Ghost<nat>,
    Ghost(by): Ghost<int>,
) -> (r: Decimal)
    requires
        match value {
            Some(v) => digits == v,
            None => digits > u64::MAX,
        },
        to_the_left ==> by <= 0,
        !to_the_left ==> by >= 0,
        match shift {
            Some(v) => by == v || by == -v,
            None => (by > u64::MAX || by < -(u64::MAX as int)) && places + 20 <= usize::MAX,
        },
    ensures
        r == reading_of(false, digits, places as nat, by),
{
    let ghost behind = places - by;
    proof {
        reveal_with_fuel(pow10, 21);
        assert(pow10(20) == 100000000000000000000);
        assert(pow10(0) == 1);
    }
    let digits_read = match value {
        Some(0) => {
            return Decimal::Digits { digits: 0, places: 0 };
        },
        Some(digits_read) => digits_read,
        None => {
            // The digits are too many, and an exponent only adds to them or
            // leaves them.
            proof {
                if behind < 0 {
                    lemma_pow10_grows(0, (-behind) as nat);
                    assert(digits * pow10((-behind) as nat) >= digits) by (nonlinear_arith)
                        requires
                            pow10((-behind) as nat) >= 1,
                            digits >= 0,
                    ;
                }
            }
            return Decimal::Long;
        },
    };
    if to_the_left || places >= FAR_BEHIND {
        // The point moves to the left or stays, or the digits behind it are
        // more than an exponent of 64 bits takes away.
        let far = places >= FAR_BEHIND || match shift {
            Some(v) => v >= FAR_BEHIND as u64,
            None => true,
        };
        if !to_the_left {
            return settle_right_of_far(digits_read, places, shift, Ghost(by));
        }
        let behind_now = if far {
            FAR_BEHIND
        } else {
            let v = match shift {
                Some(v) => v as usize,
                None => 0,
            };
            if places + v >= FAR_BEHIND {
                FAR_BEHIND
            } else {
                places + v
            }
        };
        return Decimal::Digits { digits: digits_read, places: behind_now };
    }
    // The point moves to the right, over fewer than `FAR_BEHIND` digits.
    let v = match shift {
        Some(v) => v,
        None => {
            proof {
                lemma_pow10_grows(20, (-behind) as nat);
                assert(digits * pow10((-behind) as nat) > u64::MAX) by (nonlinear_arith)
                    requires
                        digits >= 1,
                        pow10((-behind) as nat) >= 100000000000000000000,
                ;
            }
            return Decimal::Long;
        },
    };
    if v <= places as u64 {
        return Decimal::Digits { digits: digits_read, places: places - v as usize };
    }
    let zeros = v - places as u64;
    if zeros >= FAR_BEHIND as u64 {
        proof {
            lemma_pow10_grows(20, zeros as nat);
            assert(digits * pow10(zeros as nat) > u64::MAX) by (nonlinear_arith)
                requires
                    digits >= 1,
                    pow10(zeros as nat) >= 100000000000000000000,
            ;
        }
        return Decimal::Long;
    }
    match with_zeros(digits_read, zeros) {
        Some(shifted) => Decimal::Digits { digits: shifted, places: 0 },
        None => Decimal::Long,
    }
}

/// `settle` for a number with `FAR_BEHIND` digits or more behind the point
/// whose point moves to the right.
fn settle_right_of_far(digits: u64, places: usize, shift: Option<u64>, Ghost(by): Ghost<int>) -> (r:
    Decimal)
    requires
        digits >= 1,
        places >= FAR_BEHIND,
        by >= 0,
        match shift {
            Some(v) => by == v,
            None => by > u64::MAX && places + 20 <= usize::MAX,
        },
    ensures
        r == reading_of(false, digits as nat, places as nat, by),
{
    let ghost behind = places - by;
    proof {
        reveal_with_fuel(pow10, 21);
        assert(pow10(20) == 100000000000000000000);
    }
    let v = match shift {
        Some(v) => v,
        None => {
            proof {
                lemma_pow10_grows(20, (-behind) as nat);
                assert(digits * pow10((-behind) as nat) > u64::MAX) by (nonlinear_arith)
                    requires
                        digits >= 1,
                        pow10((-behind) as nat) >= 100000000000000000000,
                ;
            }
            return Decimal::Long;
        },
    };
    if v <= places as u64 {
        let behind_now = places - v as usize;
        return Decimal::Digits {
            digits,
            places: if behind_now >= FAR_BEHIND {
                FAR_BEHIND
            } else {
                behind_now
            },
        };
    }
    let zeros = v - places as u64;
    if zeros >= FAR_BEHIND as u64 {
        proof {
            lemma_pow10_grows(20, zeros as nat);
            assert(digits * pow10(zeros as nat) > u64::MAX) by (nonlinear_arith)
                requires
                    digits >= 1,
                    pow10(zeros as nat) >= 100000000000000000000,
            ;
        }
        return Decimal::Long;
    }
    match with_zeros(digits, zeros) {
        Some(shifted) => Decimal::Digits { digits: shifted, places: 0 },
        None => Decimal::Long,
    }
}

/// `digits` with `zeros` zeros behind it; nothing where that does not fit
/// in 64 bits.
fn with_zeros(digits: u64, zeros: u64) -> (r: Option<u64>)
    requires
        digits >= 1,
    ensures
        match r {
            Some(shifted) => shifted == digits * pow10(zeros as nat),
            None => digits * pow10(zeros as nat) > u64::MAX,
        },
{
    let mut shifted: u64 = digits;
    let mut k: u64 = 0;
    assert(digits * pow10(0) == digits) by (nonlinear_arith)
        requires
            pow10(0) == 1,
    ;
    while k < zeros
        invariant
            k <= zeros,
            shifted == digits * pow10(k as nat),
            digits >= 1,
        decreases zeros - k,
    {
        proof {
            assert(pow10((k + 1) as nat) == 10 * pow10(k as nat));
            assert(digits * pow10((k + 1) as nat) == (digits * pow10(k as nat)) * 10)
                by (nonlinear_arith)
                requires
                    pow10((k + 1) as nat) == 10 * pow10(k as nat),
            ;
        }
        if shifted > u64::MAX / 10 {
            proof {
                lemma_pow10_grows((k + 1) as nat, zeros as nat);
                assert(digits * pow10(zeros as nat) >= digits * pow10((k + 1) as nat))
                    by (nonlinear_arith)
                    requires
                        pow10(zeros as nat) >= pow10((k + 1) as nat),
                        digits >= 0,
                ;
            }
            return None;
        }
        shifted = shifted * 10;
        k += 1;
    }
    Some(shifted)
}

/// Whether `chars[from..]` is a word; see `is_word`.
fn is_word_from(chars: &Vec<char>, from: usize, small: &str, capital: &str) -> (r: bool)
    requires
        from <= chars.len(),
        small@.len() == capital@.len(),
    ensures
        r == is_word(chars@.skip(from as int), small@, capital@),
{
    let low = chars_of(small);
    let high = chars_of(capital);
    let ghost s = chars@.skip(from as int);
    if chars.len() - from != low.len() {
        return false;
    }
    let mut i: usize = 0;
    while i < low.len()
        invariant
            i <= low.len(),
            low@ == small@,
            high@ == capital@,
            low.len() == high.len(),
            from + low.len() == chars.len(),
            s == chars@.skip(from as int),
            forall|j: int| 0 <= j < i ==> #[trigger] s[j] == low@[j] || s[j] == high@[j],
        decreases low.len() - i,
    {
        assert(s[i as int] == chars@[from + i]);
        if chars[from + i] != low[i] && chars[from + i] != high[i] {
            return false;
        }
        i += 1;
    }
    true
}

/// Reads a text that is no decimal number: it may name infinity or say that
/// it is no number.
fn read_name(chars: &Vec<char>, start: usize, negative: bool) -> (r: Decimal)
    requires
        start <= chars.len(),
        chars@.skip(start as int) == unsigned_part(chars@),
        negative == has_minus(chars@),
        decimal_parts(chars@) is None,
    ensures
        r == decimal_reading(chars@),
{
    proof {
        reveal_strlit("inf");
        reveal_strlit("INF");
        reveal_strlit("infinity");
        reveal_strlit("INFINITY");
        reveal_strlit("nan");
        reveal_strlit("NAN");
    }
    if is_word_from(chars, start, "nan", "NAN") {
        Decimal::NotANumber
    } else if is_word_from(chars, start, "inf", "INF") || is_word_from(
        chars,
        start,
        "infinity",
        "INFINITY",
    ) {
        if negative {
            Decimal::Negative
        } else {
            Decimal::Infinite
        }
    } else {
        Decimal::NoNumber
    }
}

/// Reads a text as a decimal number.
pub fn read_decimal(chars: &Vec<char>) -> (r: Decimal)
    ensures
        r == decimal_reading(chars@),
{
    let n = chars.len();
    let negative = n > 0 && chars[0] == '-';
    let start: usize = if n > 0 && (chars[0] == '-' || chars[0] == '+') {
        1
    } else {
        0
    };
    let ghost body = chars@.skip(start as int);
    assert(chars@.skip(0) == chars@);
    let mut mark: usize = start;
    while mark < n && chars[mark] != 'e' && chars[mark] != 'E'
        invariant
            start <= mark <= n == chars.len(),
            body == chars@.skip(start as int),
            forall|j: int| 0 <= j < mark - start ==> !is_exponent_mark()(#[trigger] body[j]),
        decreases n - mark,
    {
        assert(body[mark - start] == chars@[mark as int]);
        mark += 1;
    }
    proof {
        if mark < n {
            assert(body[mark - start] == chars@[mark as int]);
        }
        lemma_first_place_is(body, is_exponent_mark(), mark - start);
        assert(body.take(mark - start) == chars@.subrange(start as int, mark as int));
        if mark < n {
            assert(body.skip(mark - start + 1) == chars@.skip(mark + 1));
        }
    }
    let (value, places) = match read_mantissa(chars, start, mark) {
        Some(mantissa) => mantissa,
        None => {
            return read_name(chars, start, negative);
        },
    };
    let (to_the_left, shift) = if mark < n {
        match read_exponent(chars, mark + 1) {
            Some(exponent) => exponent,
            None => {
                return read_name(chars, start, negative);
            },
        }
    } else {
        (false, Some(0))
    };
    if negative {
        return Decimal::Negative;
    }
    let ghost parts = decimal_parts(chars@)->0;
    settle(
        value,
        places,
        to_the_left,
        shift,
        Ghost(digits_value(parts.whole + parts.fraction)),
        Ghost(parts.shift),
    )
}

/// The ASCII digit that stands for `d`.
pub fn digit_of(d: u8) -> (c: char)
    requires
        d < 10,
    ensures
        c == digit_char(d as nat),
{
    if d == 0 {
        '0'
    } else if d == 1 {
        '1'
    } else if d == 2 {
        '2'
    } else if d == 3 {
        '3'
    } else if d == 4 {
        '4'
    } else if d == 5 {
        '5'
    } else if d == 6 {
        '6'
    } else if d == 7 {
        '7'
    } else if d == 8 {
        '8'
    } else {
        '9'
    }
}

/// Appends `n` in decimal to `out`.
pub fn push_decimal(out: &mut String, n: u128)
    ensures
        final(out)@ == old(out)@ + decimal(n as nat),
    decreases n,
{
    if n >= 10 {
        push_decimal(out, n / 10);
    }
    out.push(digit_of((n % 10) as u8));
}

/// Appends `n` to `out`, in at least two digits.
pub fn push_padded2(out: &mut String, n: u32)
    ensures
        final(out)@ == old(out)@ + padded2(n as nat),
{
    if n < 10 {
        out.push('0');
    }
    push_decimal(out, n as u128);
}

/// Appends `hundredths` to `out` with two decimal places.
pub fn push_fixed2(out: &mut String, hundredths: u128)
    ensures
        final(out)@ == old(out)@ + fixed2(hundredths as nat),
{
    push_decimal(out, hundredths / 100);
    out.push('.');
    out.push(digit_of(((hundredths / 10) % 10) as u8));
    out.push(digit_of((hundredths % 10) as u8));
}

/// Reads an unsigned decimal integer of at most 64 bits from `chars`.
pub fn parse_u64_chars(chars: &Vec<char>) -> (r: Option<u64>)
    ensures
        r == parse_u64_text(chars@),
{
    let n = chars.len();
    let start: usize = if n > 0 && chars[0] == '+' { 1 } else { 0 };
    if start == n {
        return None;
    }
    let ghost digits = chars@.subrange(start as int, n as int);
    assert(chars@.subrange(0, n as int) == chars@);
    let mut value: u64 = 0;
    let mut i: usize = start;
    while i < n
        invariant
            start <= i <= n == chars.len(),
            start < n,
            start == (if chars@.len() > 0 && chars@[0] == '+' { 1int } else { 0int }),
            digits == chars@.subrange(start as int, n as int),
            start == 0 ==> digits == chars@,
            all_digits(digits.take(i - start)),
            value as nat == digits_value(digits.take(i - start)),
        decreases n - i,
    {
        let c = chars[i];
        if !(c >= '0' && c <= '9') {
            proof {
                assert(digits[i - start] == c);
            }
            return None;
        }
        let d: u64 = (c as u32 - '0' as u32) as u64;
        proof {
            let next = digits.take(i - start + 1);
            assert(next.drop_last() == digits.take(i - start));
            assert(next.last() == c);
            assert(digits_value(next) == value * 10 + d);
            lemma_digits_value_grows(digits, i - start + 1);
        }
        if value > (u64::MAX - d) / 10 {
            assert(value * 10 + d > u64::MAX);
            return None;
        }
        value = value * 10 + d;
        i += 1;
    }
    assert(digits.take(n - start) == digits);
    assert(chars@.subrange(0, n as int) == chars@);
    Some(value)
}

/// A digit string is worth at least as much as each of its prefixes.
pub proof fn lemma_digits_value_grows(s: Seq<char>, k: int)
    requires
        0 <= k <= s.len(),
    ensures
        digits_value(s.take(k)) <= digits_value(s),
    decreases s.len() - k,
{
    if k < s.len() {
        let next = s.take(k + 1);
        assert(next.drop_last() == s.take(k));
        lemma_digits_value_grows(s, k + 1);
    } else {
        assert(s.take(k) == s);
    }
}

/// Whether `pattern` occurs in `s` at `at`.
pub open spec fn occurs_at(s: Seq<char>, pattern: Seq<char>, at: int) -> bool {
    0 <= at && at + pattern.len() <= s.len() && s.subrange(at, at + pattern.len()) == pattern
}

/// Whether `pattern` occurs anywhere in `s`.
pub open spec fn contains(s: Seq<char>, pattern: Seq<char>) -> bool {
    exists|at: int| occurs_at(s, pattern, at)
}

/// `s` with every `from` replaced by `to`, the occurrences taken from the
/// left, none of them overlapping another. An empty `from` occurs nowhere.
pub open spec fn replaced(s: Seq<char>, from: Seq<char>, to: Seq<char>) -> Seq<char>
    decreases s.len(),
{
    if from.len() == 0 || s.len() < from.len() {
        s
    } else if s.take(from.len() as int) == from {
        to + replaced(s.skip(from.len() as int), from, to)
    } else {
        seq![s[0]] + replaced(s.skip(1), from, to)
    }
}

/// Whether `a` stands before `b` in the order of a dictionary that goes by
/// the characters' code points: the order of Rust's strings.
pub open spec fn text_lt(a: Seq<char>, b: Seq<char>) -> bool
    decreases a.len(),
{
    if b.len() == 0 {
        false
    } else if a.len() == 0 {
        true
    } else if a[0] != b[0] {
        a[0] < b[0]
    } else {
        text_lt(a.drop_first(), b.drop_first())
    }
}

/// No text stands before a text that stands before it.
pub proof fn text_lt_is_one_way(a: Seq<char>, b: Seq<char>)
    ensures
        text_lt(a, b) ==> !text_lt(b, a),
    decreases a.len(),
{
    if a.len() > 0 && b.len() > 0 && a[0] == b[0] {
        text_lt_is_one_way(a.drop_first(), b.drop_first());
    }
}

/// Where `a` stands before `b`, every text stands behind `a` or before `b`.
pub proof fn text_lt_leaves_no_gap(a: Seq<char>, b: Seq<char>, c: Seq<char>)
    ensures
        text_lt(a, b) ==> text_lt(a, c) || text_lt(c, b),
    decreases a.len(),
{
    if a.len() > 0 && b.len() > 0 && c.len() > 0 && a[0] == b[0] && a[0] == c[0] {
        text_lt_leaves_no_gap(a.drop_first(), b.drop_first(), c.drop_first());
    }
}

/// Of two different texts one stands before the other.
pub proof fn text_lt_orders_all(a: Seq<char>, b: Seq<char>)
    ensures
        a == b || text_lt(a, b) || text_lt(b, a),
    decreases a.len(),
{
    if a.len() > 0 && b.len() > 0 && a[0] == b[0] {
        text_lt_orders_all(a.drop_first(), b.drop_first());
        if a.drop_first() == b.drop_first() {
            assert(a.len() == a.drop_first().len() + 1 && b.len() == b.drop_first().len() + 1);
            assert forall|i: int| 0 <= i < a.len() implies a[i] == b[i] by {
                if i > 0 {
                    assert(a[i] == a.drop_first()[i - 1]);
                    assert(b[i] == b.drop_first()[i - 1]);
                }
            }
            assert(a =~= b);
        }
    } else if a.len() == 0 && b.len() == 0 {
        assert(a =~= b);
    }
}

/// What is written of a number is read as that number: `decimal` writes
/// digits alone, and `parse_unsigned` reads them back.
pub proof fn decimal_is_read_back(n: nat)
    ensures
        all_digits(decimal(n)),
        decimal(n).len() > 0,
        digits_value(decimal(n)) == n,
        parse_unsigned(decimal(n)) == Some(n),
    decreases n,
{
    lemma_digit_char_is_read_back(n % 10);
    if n >= 10 {
        decimal_is_read_back(n / 10);
        let front = decimal(n / 10);
        let all = front.push(digit_char(n % 10));
        assert(all.drop_last() == front);
        assert(all.last() == digit_char(n % 10));
        assert forall|i: int| 0 <= i < all.len() implies is_digit(#[trigger] all[i]) by {
            if i < front.len() {
                assert(all[i] == front[i]);
            }
        }
        assert(all[0] == front[0]);
        assert(is_digit(front[0]));
    } else {
        let all = decimal(n);
        assert(all.drop_last() == Seq::<char>::empty());
        assert(all.last() == digit_char(n));
        assert(digits_value(Seq::<char>::empty()) == 0);
        assert(is_digit(all[0]));
    }
    assert(decimal(n).subrange(0, decimal(n).len() as int) == decimal(n));
}

/// A digit is read as the number that it was written for.
pub proof fn lemma_digit_char_is_read_back(d: nat)
    requires
        d < 10,
    ensures
        is_digit(digit_char(d)),
        digit_value(digit_char(d)) == d,
{
}

/// Whether `pattern` occurs in `s` at `at`.
pub fn occurs_at_chars(s: &Vec<char>, pattern: &Vec<char>, at: usize) -> (r: bool)
    ensures
        r == occurs_at(s@, pattern@, at as int),
{
    if at > s.len() || pattern.len() > s.len() - at {
        return false;
    }
    let mut k: usize = 0;
    while k < pattern.len()
        invariant
            k <= pattern.len(),
            at + pattern.len() <= s.len(),
            s@.subrange(at as int, at + k) == pattern@.take(k as int),
        decreases pattern.len() - k,
    {
        if s[at + k] != pattern[k] {
            assert(s@.subrange(at as int, at + pattern.len())[k as int] != pattern@[k as int]);
            return false;
        }
        assert(s@.subrange(at as int, at + k + 1) == s@.subrange(at as int, at + k).push(
            s@[at + k],
        ));
        assert(pattern@.take(k + 1) == pattern@.take(k as int).push(pattern@[k as int]));
        k += 1;
    }
    assert(pattern@.take(pattern.len() as int) == pattern@);
    true
}

/// Whether `pattern` occurs anywhere in `s`.
pub fn contains_chars(s: &Vec<char>, pattern: &Vec<char>) -> (r: bool)
    ensures
        r == contains(s@, pattern@),
{
    if pattern.len() > s.len() {
        return false;
    }
    let last: usize = s.len() - pattern.len();
    let mut at: usize = 0;
    loop
        invariant
            at <= last,
            last == s.len() - pattern.len(),
            forall|j: int| 0 <= j < at ==> !occurs_at(s@, pattern@, j),
        decreases last - at,
    {
        if occurs_at_chars(s, pattern, at) {
            return true;
        }
        if at == last {
            return false;
        }
        at += 1;
    }
}

/// Whether `a` stands before `b` in the order of Rust's strings.
pub fn text_lt_chars(a: &Vec<char>, b: &Vec<char>) -> (r: bool)
    ensures
        r == text_lt(a@, b@),
{
    let mut i: usize = 0;
    assert(a@.skip(0) == a@ && b@.skip(0) == b@);
    while i < a.len() && i < b.len()
        invariant
            i <= a.len(),
            i <= b.len(),
            text_lt(a@, b@) == text_lt(a@.skip(i as int), b@.skip(i as int)),
        decreases a.len() - i,
    {
        let ghost ra = a@.skip(i as int);
        let ghost rb = b@.skip(i as int);
        assert(ra[0] == a@[i as int] && rb[0] == b@[i as int]);
        if a[i] != b[i] {
            return a[i] < b[i];
        }
        assert(ra.drop_first() == a@.skip(i + 1));
        assert(rb.drop_first() == b@.skip(i + 1));
        i += 1;
    }
    i < b.len()
}

/// `s` with every `from` replaced by `to`; `s` itself where `from` is
/// empty.
pub fn replace_chars(s: &Vec<char>, from: &Vec<char>, to: &Vec<char>) -> (out: Vec<char>)
    ensures
        out@ == replaced(s@, from@, to@),
{
    let mut out: Vec<char> = Vec::new();
    let mut i: usize = 0;
    assert(s@.skip(0) == s@);
    if from.len() == 0 {
        while i < s.len()
            invariant
                i <= s.len(),
                out@ == s@.take(i as int),
            decreases s.len() - i,
        {
            out.push(s[i]);
            assert(s@.take(i + 1) == s@.take(i as int).push(s@[i as int]));
            i += 1;
        }
        assert(s@.take(s.len() as int) == s@);
        return out;
    }
    while i < s.len()
        invariant
            i <= s.len(),
            from.len() > 0,
            out@ + replaced(s@.skip(i as int), from@, to@) == replaced(s@, from@, to@),
        decreases s.len() - i,
    {
        let ghost rest = s@.skip(i as int);
        let ghost done = out@;
        if occurs_at_chars(s, from, i) {
            assert(rest.take(from.len() as int) == s@.subrange(i as int, i + from.len()));
            assert(rest.skip(from.len() as int) == s@.skip(i + from.len()));
            let mut k: usize = 0;
            while k < to.len()
                invariant
                    k <= to.len(),
                    out@ == done + to@.take(k as int),
                decreases to.len() - k,
            {
                out.push(to[k]);
                assert(to@.take(k + 1) == to@.take(k as int).push(to@[k as int]));
                k += 1;
            }
            assert(to@.take(to.len() as int) == to@);
            assert((done + to@) + replaced(rest.skip(from.len() as int), from@, to@) == done + (to@
                + replaced(rest.skip(from.len() as int), from@, to@)));
            i += from.len();
        } else {
            proof {
                assert(rest.skip(1) == s@.skip(i + 1));
                assert(rest[0] == s@[i as int]);
                assert(done.push(rest[0]) == done + seq![rest[0]]);
                if rest.len() >= from@.len() {
                    assert(rest.take(from.len() as int) == s@.subrange(i as int, i + from.len()));
                    assert((done + seq![rest[0]]) + replaced(rest.skip(1), from@, to@) == done + (
                    seq![rest[0]] + replaced(rest.skip(1), from@, to@)));
                } else {
                    // Too short for a match: the rest stays, and so does the
                    // rest behind its first character.
                    assert(replaced(rest, from@, to@) == rest);
                    assert(replaced(rest.skip(1), from@, to@) == rest.skip(1));
                    assert(done.push(rest[0]) + rest.skip(1) == done + rest);
                }
            }
            out.push(s[i]);
            i += 1;
        }
    }
    assert(replaced(s@.skip(s.len() as int), from@, to@) == Seq::<char>::empty());
    assert(out@ + Seq::<char>::empty() == out@);
    out
}

} // verus!
