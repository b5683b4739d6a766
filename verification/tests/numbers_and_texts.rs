use liquid_cache_admin::binary64::{
    nearest_double_of, quotient_hundredths_of, round_division, scaled_hundredths_of,
};
use liquid_cache_admin::text::{
    chars_of, contains_chars, digit_of, occurs_at_chars, parse_u64_chars, push_chars,
    push_decimal, push_fixed2, push_padded2, read_decimal, string_of, text_lt_chars, Decimal,
};

fn numbers() -> Vec<u64> {
    let mut out: Vec<u64> = vec![0, 1, 2, 9, 10, 99, 100, 999, 1000, u64::MAX, u64::MAX - 1];
    let mut state: u64 = 0xDEAD_BEEF_CAFE_F00D;
    for round in 0..20000u64 {
        state = state.wrapping_mul(6364136223846793005).wrapping_add(1442695040888963407);
        out.push(state >> (round % 64));
    }
    for k in 50..64u32 {
        let p = 1u64 << k;
        for delta in 0..2100u64 {
            out.push(p.wrapping_add(delta));
            out.push(p.wrapping_sub(delta));
        }
    }
    out
}

#[test]
fn rounding_goes_to_nearest_and_ties_to_even() {
    assert_eq!(round_division(0, 1), 0);
    assert_eq!(round_division(7, 2), 4);
    assert_eq!(round_division(5, 2), 2);
    assert_eq!(round_division(1, 2), 0);
    assert_eq!(round_division(3, 2), 2);
    assert_eq!(round_division(149, 100), 1);
    assert_eq!(round_division(150, 100), 2);
    assert_eq!(round_division(250, 100), 2);
    assert_eq!(round_division(251, 100), 3);
    assert_eq!(round_division(10, 3), 3);
    assert_eq!(round_division(11, 3), 4);
    assert_eq!(round_division(u128::MAX - 1, 1), u128::MAX - 1);
    assert_eq!(round_division(u128::MAX, 2), 1u128 << 127);
    assert_eq!(round_division(5, u128::MAX), 0);
}

#[test]
fn the_nearest_double_is_the_one_of_the_machine() {
    for n in numbers() {
        assert_eq!(nearest_double_of(n), (n as f64) as u128, "number {n}");
    }
    assert_eq!(nearest_double_of(9007199254740992), 9007199254740992);
    assert_eq!(nearest_double_of(9007199254740993), 9007199254740992);
    assert_eq!(nearest_double_of(9007199254740995), 9007199254740996);
    assert_eq!(nearest_double_of(u64::MAX), 1u128 << 64);
}

#[test]
fn quotients_are_those_of_double_precision() {
    let units: [u64; 6] = [1000, 1000000, 1000000000, 1024, 1048576, 1073741824];
    for n in numbers() {
        for d in units {
            if n >= d && (n as u128) < (d as u128) << 52 {
                let expected = format!("{:.2}", n as f64 / d as f64);
                let hundredths = scaled_hundredths_of(n, d);
                let got = format!("{}.{:02}", hundredths / 100, hundredths % 100);
                assert_eq!(got, expected, "{n} / {d}");
                assert_eq!(quotient_hundredths_of(nearest_double_of(n), d), hundredths);
            }
        }
    }
    assert_eq!(scaled_hundredths_of(1, 1), 100);
    assert_eq!(scaled_hundredths_of(3, 2), 150);
    assert_eq!(scaled_hundredths_of(1015000, 1000000), 101);
    assert_eq!(scaled_hundredths_of(1025000, 1000000), 102);
}

#[test]
fn numbers_are_written_in_decimal() {
    for n in numbers() {
        let mut out = String::from(">");
        push_decimal(&mut out, n as u128);
        assert_eq!(out, format!(">{n}"));
    }
    let mut out = String::new();
    push_decimal(&mut out, u128::MAX);
    assert_eq!(out, u128::MAX.to_string());
    for d in 0..10u8 {
        assert_eq!(digit_of(d), char::from_digit(d as u32, 10).unwrap());
    }
}

#[test]
fn hundredths_are_written_with_two_decimal_places() {
    let cases: [(u128, &str); 8] = [
        (0, "0.00"),
        (1, "0.01"),
        (9, "0.09"),
        (10, "0.10"),
        (99, "0.99"),
        (100, "1.00"),
        (12345, "123.45"),
        (100000, "1000.00"),
    ];
    for (hundredths, expected) in cases {
        let mut out = String::new();
        push_fixed2(&mut out, hundredths);
        assert_eq!(out, expected);
    }
    for n in [0u32, 1, 9, 10, 11, 99, 100, 4294967295] {
        let mut out = String::new();
        push_padded2(&mut out, n);
        assert_eq!(out, format!("{n:02}"));
    }
}

#[test]
fn numbers_are_read_as_the_standard_library_reads_them() {
    let texts = [
        "", "0", "1", "+1", "-1", "+", "++1", "1+", "01", "0000", "+0009", " 1", "1 ", "1.0",
        "1e3", "١", "1٢", "１", "abc", "0x1", "18446744073709551615", "18446744073709551616",
        "018446744073709551615", "+18446744073709551615", "184467440737095516150",
        "99999999999999999999999999", "00000000000000000000000000000000000007",
    ];
    for text in texts {
        assert_eq!(parse_u64_chars(&chars_of(text)), text.parse::<u64>().ok(), "text {text:?}");
    }
    for n in numbers() {
        assert_eq!(parse_u64_chars(&chars_of(&n.to_string())), Some(n));
    }
}

#[test]
fn decimal_numbers_are_read_by_their_parts() {
    let read = |text: &str| read_decimal(&chars_of(text));
    assert_eq!(read("1500.5"), Decimal::Digits { digits: 15005, places: 1 });
    assert_eq!(read("+1500.5"), Decimal::Digits { digits: 15005, places: 1 });
    assert_eq!(read("0012.3400"), Decimal::Digits { digits: 123400, places: 4 });
    assert_eq!(read("7"), Decimal::Digits { digits: 7, places: 0 });
    assert_eq!(read("7."), Decimal::Digits { digits: 7, places: 0 });
    assert_eq!(read(".7"), Decimal::Digits { digits: 7, places: 1 });
    assert_eq!(read("0.000"), Decimal::Digits { digits: 0, places: 0 });
    assert_eq!(read("1.5e3"), Decimal::Digits { digits: 1500, places: 0 });
    assert_eq!(read("1.5E1"), Decimal::Digits { digits: 15, places: 0 });
    assert_eq!(read("1.5e0"), Decimal::Digits { digits: 15, places: 1 });
    assert_eq!(read("1.5e+0"), Decimal::Digits { digits: 15, places: 1 });
    assert_eq!(read("1.5e-2"), Decimal::Digits { digits: 15, places: 3 });
    assert_eq!(read("15e-30"), Decimal::Digits { digits: 15, places: 20 });
    assert_eq!(read("15e-99999999999999999999999"), Decimal::Digits { digits: 15, places: 20 });
    assert_eq!(read("0e99999999999999999999999"), Decimal::Digits { digits: 0, places: 0 });
    assert_eq!(read("1e19"), Decimal::Digits { digits: 10000000000000000000, places: 0 });
    assert_eq!(read("1e20"), Decimal::Long);
    assert_eq!(read("2e19"), Decimal::Long);
    assert_eq!(read("1e99999999999999999999999"), Decimal::Long);
    assert_eq!(read("-1e5"), Decimal::Negative);
    assert_eq!(read("inf"), Decimal::Infinite);
    assert_eq!(read("+Infinity"), Decimal::Infinite);
    assert_eq!(read("-INF"), Decimal::Negative);
    assert_eq!(read("nan"), Decimal::NotANumber);
    assert_eq!(read("-NaN"), Decimal::NotANumber);
    assert_eq!(read("infinit"), Decimal::NoNumber);
    assert_eq!(read("na"), Decimal::NoNumber);
    assert_eq!(
        read("18446744073709551.615"),
        Decimal::Digits { digits: u64::MAX, places: 3 }
    );
    assert_eq!(read("18446744073709551.616"), Decimal::Long);
    assert_eq!(read("99999999999999999999"), Decimal::Long);
    assert_eq!(read("0.00000000000000000000001"), Decimal::Digits { digits: 1, places: 20 });
    assert_eq!(read("-1"), Decimal::Negative);
    assert_eq!(read("-.5"), Decimal::Negative);
    assert_eq!(read("-99999999999999999999.9"), Decimal::Negative);
    for text in ["", ".", "+", "-", "+.", "-.", "1.2.3", "1..", "..1", "1e", "1e+", "e3", "1e3e3",
        "1e3.5", ".e3", "1 ", " 1", "a", "1a", "1.a", "+-1", "--1", "1-", "1+", "1.5ns", "１.５"]
    {
        assert_eq!(read(text), Decimal::NoNumber, "text {text:?}");
    }
}

#[test]
fn texts_are_taken_apart_and_put_together() {
    for text in ["", "a", "plan", "é\u{3bc}\u{10348}z", "a\u{0}b"] {
        let chars = chars_of(text);
        assert_eq!(chars, text.chars().collect::<Vec<char>>());
        assert_eq!(string_of(&chars), text);
    }
    let chars = chars_of("elapsed");
    let mut out = String::from("[");
    push_chars(&mut out, &chars, 1, 4);
    push_chars(&mut out, &chars, 7, 7);
    push_chars(&mut out, &chars, 0, 0);
    assert_eq!(out, "[lap");
}

#[test]
fn a_pattern_is_found_where_the_standard_library_finds_it() {
    let texts = ["", "a", "aa", "ab", "ba", "aab", "abab", "time", "runtime_ns", "tim e", "éé", "xéy"];
    let patterns = ["", "a", "b", "ab", "aa", "aba", "time", "é", "éy", "abababab"];
    for text in texts {
        for pattern in patterns {
            let t = chars_of(text);
            let p = chars_of(pattern);
            assert_eq!(contains_chars(&t, &p), text.contains(pattern), "{text:?} {pattern:?}");
            for at in 0..t.len() + 2 {
                let expected = at + p.len() <= t.len() && t[at..at + p.len()] == p[..];
                assert_eq!(occurs_at_chars(&t, &p, at), expected);
            }
        }
    }
}

#[test]
fn texts_are_ordered_as_strings_are() {
    let texts = [
        "", "a", "A", "aa", "ab", "b", "a ", " a", "é", "e", "z", "\u{7f}", "\u{80}", "\u{7ff}",
        "\u{800}", "\u{ffff}", "\u{10000}", "\u{10ffff}", "ä", "zz", "aé", "a\u{10000}",
    ];
    for a in texts {
        for b in texts {
            assert_eq!(text_lt_chars(&chars_of(a), &chars_of(b)), a < b, "{a:?} {b:?}");
        }
    }
}
