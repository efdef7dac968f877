use boa::number::{
    absolute, equal, from_integer, from_natural, from_word, is_finite, is_infinite, is_nan,
    is_negative, is_zero, less, negate, power_of_two, shift_left, shift_right, to_safe_integer,
    to_word, unit_interval, INFINITY, NAN, NEG_INFINITY, ONE, ZERO,
};
use boa::text::{
    characters, check_decimal_literal, integer_to_string, number_to_string, read_number,
    read_plain_natural, string_to_number, to_positional,
};

fn bits(x: f64) -> u64 {
    x.to_bits()
}

fn chars(s: &str) -> Vec<char> {
    s.chars().collect()
}

#[test]
fn constants_are_the_patterns_of_their_numbers() {
    assert_eq!(ZERO, bits(0.0));
    assert_eq!(ONE, bits(1.0));
    assert_eq!(INFINITY, bits(f64::INFINITY));
    assert_eq!(NEG_INFINITY, bits(f64::NEG_INFINITY));
    assert!(f64::from_bits(NAN).is_nan());
}

#[test]
fn classification_follows_the_pattern() {
    assert!(is_nan(NAN));
    assert!(is_nan(bits(f64::NAN)));
    assert!(!is_nan(INFINITY));
    assert!(is_infinite(INFINITY));
    assert!(is_infinite(NEG_INFINITY));
    assert!(!is_infinite(bits(1.5)));
    assert!(is_zero(bits(0.0)));
    assert!(is_zero(bits(-0.0)));
    assert!(!is_zero(bits(5e-324)));
    assert!(is_finite(bits(1e308)));
    assert!(!is_finite(NAN));
    assert!(is_negative(bits(-2.0)));
    assert!(is_negative(bits(-0.0)));
    assert!(!is_negative(bits(2.0)));
    assert_eq!(absolute(bits(-2.5)), bits(2.5));
    assert_eq!(negate(bits(2.5)), bits(-2.5));
    assert_eq!(negate(bits(-2.5)), bits(2.5));
}

#[test]
fn equality_is_that_of_ieee() {
    assert!(equal(bits(0.0), bits(-0.0)));
    assert!(equal(bits(1.5), bits(1.5)));
    assert!(!equal(bits(1.5), bits(2.5)));
    assert!(!equal(NAN, NAN));
    assert!(!equal(NAN, bits(1.0)));
}

#[test]
fn less_orders_as_the_numbers_do() {
    let samples = [-1e300, -2.5, -1.0, -5e-324, -0.0, 0.0, 5e-324, 0.5, 1.0, 2.5, 1e300];
    for a in samples {
        for b in samples {
            assert_eq!(less(bits(a), bits(b)), a < b, "{} < {}", a, b);
            assert_eq!(equal(bits(a), bits(b)), a == b, "{} == {}", a, b);
        }
    }
    assert!(less(NEG_INFINITY, INFINITY));
    assert!(less(bits(1e308), INFINITY));
    assert!(!less(NAN, bits(1.0)));
    assert!(!less(bits(1.0), NAN));
}

#[test]
fn natural_numbers_become_their_patterns() {
    for n in [0u64, 1, 2, 3, 4, 7, 10, 255, 4096, 1 << 52, (1 << 53) - 1, 123456789012345] {
        assert_eq!(from_natural(n), bits(n as f64), "{}", n);
    }
}

#[test]
fn integers_become_their_patterns() {
    for n in [0i64, 1, -1, 2, -2, 12, -12, 1 << 40, -(1 << 40), (1 << 53) - 1, -((1 << 53) - 1)] {
        assert_eq!(from_integer(n), bits(n as f64), "{}", n);
    }
}

#[test]
fn whole_numbers_are_found_and_others_are_not() {
    assert_eq!(to_safe_integer(bits(0.0)), Some(0));
    assert_eq!(to_safe_integer(bits(-0.0)), Some(0));
    assert_eq!(to_safe_integer(bits(3.0)), Some(3));
    assert_eq!(to_safe_integer(bits(-3.0)), Some(-3));
    assert_eq!(to_safe_integer(bits(9007199254740991.0)), Some(9007199254740991));
    assert_eq!(to_safe_integer(bits(9007199254740992.0)), None);
    assert_eq!(to_safe_integer(bits(2.5)), None);
    assert_eq!(to_safe_integer(bits(0.5)), None);
    assert_eq!(to_safe_integer(bits(5e-324)), None);
    assert_eq!(to_safe_integer(bits(1e300)), None);
    assert_eq!(to_safe_integer(INFINITY), None);
    assert_eq!(to_safe_integer(NAN), None);
}

#[test]
fn powers_of_two_are_exact() {
    assert_eq!(power_of_two(0), 1);
    assert_eq!(power_of_two(1), 2);
    assert_eq!(power_of_two(10), 1024);
    assert_eq!(power_of_two(62), 1 << 62);
}

#[test]
fn words_are_the_whole_part_modulo_two_to_the_thirty_two() {
    assert_eq!(to_word(bits(0.0)), 0);
    assert_eq!(to_word(bits(1.0)), 1);
    assert_eq!(to_word(bits(-1.0)), 0xFFFF_FFFF);
    assert_eq!(to_word(bits(2.9)), 2);
    assert_eq!(to_word(bits(-2.9)), 0xFFFF_FFFE);
    assert_eq!(to_word(bits(4294967296.0)), 0);
    assert_eq!(to_word(bits(4294967297.0)), 1);
    assert_eq!(to_word(bits(-4294967297.0)), 0xFFFF_FFFF);
    assert_eq!(to_word(bits(2147483648.0)), 0x8000_0000);
    assert_eq!(to_word(bits(1e300)), 0);
    assert_eq!(to_word(bits(0.5)), 0);
    assert_eq!(to_word(NAN), 0);
    assert_eq!(to_word(INFINITY), 0);
    assert_eq!(to_word(bits(9007199254740993.0 * 4.0)), ((9007199254740992u64 * 4) % (1 << 32)) as u32);
    assert_eq!(to_word(bits(6442450944.0 * 1024.0 + 1024.0)), 1024);
}

#[test]
fn words_become_signed_numbers() {
    assert_eq!(from_word(0), bits(0.0));
    assert_eq!(from_word(5), bits(5.0));
    assert_eq!(from_word(0x7FFF_FFFF), bits(2147483647.0));
    assert_eq!(from_word(0x8000_0000), bits(-2147483648.0));
    assert_eq!(from_word(0xFFFF_FFFF), bits(-1.0));
}

#[test]
fn shifts_move_the_bits_of_a_word() {
    assert_eq!(shift_left(1, 4), 16);
    assert_eq!(shift_left(1, 31), 0x8000_0000);
    assert_eq!(shift_left(3, 31), 0x8000_0000);
    assert_eq!(shift_left(1, 32), 1);
    assert_eq!(shift_left(0xFFFF_FFFF, 1), 0xFFFF_FFFE);
    assert_eq!(shift_right(16, 4), 1);
    assert_eq!(shift_right(17, 4), 1);
    assert_eq!(shift_right(0xFFFF_FFFF, 1), 0xFFFF_FFFF);
    assert_eq!(shift_right(0xFFFF_FFF0, 4), 0xFFFF_FFFF);
    assert_eq!(shift_right(0x8000_0000, 31), 0xFFFF_FFFF);
    assert_eq!(shift_right(0x8000_0000, 1), 0xC000_0000);
    assert_eq!(shift_right(0xFFFF_FFF9, 1), ((-7i32) >> 1) as u32);
    assert_eq!(shift_right(5, 33), 2);
}

#[test]
fn unit_interval_takes_the_high_bits() {
    assert_eq!(unit_interval(0), bits(0.0));
    assert_eq!(unit_interval(2047), bits(0.0));
    assert_eq!(unit_interval(1 << 63), bits(0.5));
    assert_eq!(unit_interval(1 << 62), bits(0.25));
    assert_eq!(unit_interval(u64::MAX), bits(1.0 - 1.0 / 9007199254740992.0));
    assert_eq!(unit_interval(2048), bits(1.0 / 9007199254740992.0));
}

#[test]
fn integers_are_written_in_decimal() {
    assert_eq!(integer_to_string(0), "0");
    assert_eq!(integer_to_string(7), "7");
    assert_eq!(integer_to_string(10), "10");
    assert_eq!(integer_to_string(-10), "-10");
    assert_eq!(integer_to_string(1234567890123), "1234567890123");
    assert_eq!(integer_to_string(i64::MAX), "9223372036854775807");
    assert_eq!(integer_to_string(i64::MIN), "-9223372036854775808");
    assert_eq!(boa::text::natural_to_string(u64::MAX), "18446744073709551615");
}

#[test]
fn numbers_are_written_as_the_language_writes_them() {
    assert_eq!(number_to_string(NAN), "NaN");
    assert_eq!(number_to_string(INFINITY), "Infinity");
    assert_eq!(number_to_string(NEG_INFINITY), "-Infinity");
    assert_eq!(number_to_string(bits(0.0)), "0");
    assert_eq!(number_to_string(bits(-0.0)), "0");
    assert_eq!(number_to_string(bits(3.0)), "3");
    assert_eq!(number_to_string(bits(-12.0)), "-12");
    assert_eq!(number_to_string(bits(100.0)), "100");
    assert_eq!(number_to_string(bits(9007199254740991.0)), "9007199254740991");
    assert_eq!(number_to_string(bits(2.5)), "2.5");
    assert_eq!(number_to_string(bits(-2.5)), "-2.5");
    assert_eq!(number_to_string(bits(0.1)), "0.1");
    assert_eq!(number_to_string(bits(0.5)), "0.5");
    assert_eq!(number_to_string(bits(0.1 + 0.2)), "0.30000000000000004");
    assert_eq!(number_to_string(bits(1.0 / 3.0)), "0.3333333333333333");
    assert_eq!(number_to_string(bits(123.456)), "123.456");
    assert_eq!(number_to_string(bits(9007199254740992.0)), "9007199254740992");
    assert_eq!(number_to_string(bits(1.5e16)), "15000000000000000");
    assert_eq!(number_to_string(bits(1e21)), "1000000000000000000000");
    assert_eq!(number_to_string(bits(-1e21)), "-1000000000000000000000");
    assert_eq!(number_to_string(bits(1.2345e13)), "12345000000000");
    assert_eq!(number_to_string(bits(1e-7)), "0.0000001");
    assert_eq!(number_to_string(bits(0.000001)), "0.000001");
    assert_eq!(number_to_string(bits(-0.00001234)), "-0.00001234");
    assert_eq!(number_to_string(bits(123456789.125)), "123456789.125");
    let least = number_to_string(bits(5e-324));
    assert_eq!(least.len(), 326);
    assert!(least.starts_with("0.000") && least.ends_with("0005"));
    let greatest = number_to_string(bits(1.7976931348623157e308));
    assert_eq!(greatest.len(), 309);
    assert!(greatest.starts_with("17976931348623157000"));
}

#[test]
fn the_texts_of_many_patterns_read_back() {
    let mut seed: u64 = 0x2545_F491_4F6C_DD1D;
    let mut same_as_the_shortest = 0;
    let mut tried = 0;
    for _ in 0..3000 {
        seed ^= seed << 13;
        seed ^= seed >> 7;
        seed ^= seed << 17;
        let x = f64::from_bits(seed);
        if x.is_nan() || x.is_infinite() || x == 0.0 {
            continue;
        }
        let text = number_to_string(seed);
        assert!(!text.contains('E') && !text.contains('e'), "{}", text);
        assert_eq!(text.parse::<f64>().unwrap().to_bits(), seed, "{}", text);
        assert_eq!(string_to_number(&text), seed, "{}", text);
        let shortest = format!("{}", x);
        assert!(text.len() >= shortest.len(), "{} against {}", text, shortest);
        tried += 1;
        if text == shortest {
            same_as_the_shortest += 1;
        }
    }
    assert!(same_as_the_shortest * 10 >= tried * 9, "{} of {}", same_as_the_shortest, tried);
}

#[test]
fn common_numbers_are_written_with_the_fewest_digits() {
    for x in [0.1f64, 0.2, 0.3, 2.5, 1e21, 1e22, 1e-7, 1.5e300, 4.35, 0.7, 1e23, 9.5e-5, 5e-324] {
        assert_eq!(number_to_string(bits(x)), format!("{}", x), "{:e}", x);
    }
}

#[test]
fn scientific_texts_are_laid_out_without_an_exponent() {
    assert_eq!(to_positional("1.0E+21"), "1000000000000000000000");
    assert_eq!(to_positional("1.5E+1"), "15");
    assert_eq!(to_positional("1.25E+1"), "12.5");
    assert_eq!(to_positional("1.25E+0"), "1.25");
    assert_eq!(to_positional("1.25E-0"), "1.25");
    assert_eq!(to_positional("1.25E-1"), "0.125");
    assert_eq!(to_positional("1.250E-3"), "0.00125");
    assert_eq!(to_positional("-1.0E-7"), "-0.0000001");
    assert_eq!(to_positional("-9.99E+2"), "-999");
    assert_eq!(to_positional("2.5"), "2.5");
    assert_eq!(to_positional("-2.5"), "-2.5");
    assert_eq!(to_positional("12.5E+1"), "12.5E+1");
    assert_eq!(to_positional("1.5e+1"), "1.5e+1");
    assert_eq!(to_positional("1.5E1"), "1.5E1");
    assert_eq!(to_positional("1.5E+"), "1.5E+");
    assert_eq!(to_positional("1.5E+401"), "1.5E+401");
    assert_eq!(to_positional("1.E+1"), "1.E+1");
    assert_eq!(to_positional(""), "");
    assert_eq!(to_positional("-"), "-");
}

#[test]
fn the_text_of_a_number_reads_back_as_the_number() {
    let samples = [
        0.1, 0.2, 0.3, 1.0 / 3.0, 2.5, 1e21, 1e22, 1.5e300, 5e-324, 2.2250738585072014e-308,
        1.7976931348623157e308, 123456.789, 0.000001, 1e-7, 9007199254740992.0, 4.35, 0.7,
        -0.1, -1e21, -5e-324,
    ];
    for x in samples {
        let text = number_to_string(bits(x));
        assert_eq!(string_to_number(&text), bits(x), "{} as {}", x, text);
    }
}

#[test]
fn decimal_literals_are_recognised() {
    for good in ["0", "12", "1.5", "1.", ".5", "+1", "-1", "1e5", "1E5", "1e+5", "1.5e-7", "-.5e3"] {
        assert!(check_decimal_literal(&chars(good)), "{}", good);
    }
    for bad in ["", ".", "+", "-", "e5", "1e", "1e+", "1.2.3", "1 ", " 1", "abc", "1e5.0", "0x10", "--1", "1-"] {
        assert!(!check_decimal_literal(&chars(bad)), "{}", bad);
    }
}

#[test]
fn plain_naturals_are_read_exactly() {
    assert_eq!(read_plain_natural(&chars("0")), Some(0));
    assert_eq!(read_plain_natural(&chars("007")), Some(7));
    assert_eq!(read_plain_natural(&chars("9007199254740991")), Some(9007199254740991));
    assert_eq!(read_plain_natural(&chars("9007199254740992")), None);
    assert_eq!(read_plain_natural(&chars("9999999999999999")), None);
    assert_eq!(read_plain_natural(&chars("12345678901234567")), None);
    assert_eq!(read_plain_natural(&chars("")), None);
    assert_eq!(read_plain_natural(&chars("1a")), None);
    assert_eq!(read_plain_natural(&chars("-1")), None);
}

#[test]
fn texts_are_read_as_numbers() {
    assert_eq!(read_number("1"), Some(bits(1.0)));
    assert_eq!(read_number("-1"), Some(bits(-1.0)));
    assert_eq!(read_number("-0"), Some(bits(-0.0)));
    assert_eq!(read_number("2.5"), Some(bits(2.5)));
    assert_eq!(read_number("-2.5"), Some(bits(-2.5)));
    assert_eq!(read_number(".5"), Some(bits(0.5)));
    assert_eq!(read_number("1e3"), Some(bits(1000.0)));
    assert_eq!(read_number("1e400"), Some(INFINITY));
    assert_eq!(read_number("1e-400"), Some(bits(0.0)));
    assert_eq!(read_number("0.1"), Some(bits(0.1)));
    assert_eq!(read_number("9007199254740993"), Some(bits(9007199254740992.0)));
    assert_eq!(read_number("Infinity"), Some(INFINITY));
    assert_eq!(read_number("+Infinity"), Some(INFINITY));
    assert_eq!(read_number("-Infinity"), Some(NEG_INFINITY));
    assert_eq!(read_number(""), None);
    assert_eq!(read_number("abc"), None);
    assert_eq!(read_number("NaN"), None);
    assert_eq!(read_number("0x10"), None);
    assert_eq!(read_number("inf"), None);
    assert_eq!(read_number("1 "), None);
}

#[test]
fn a_text_that_is_no_number_is_a_not_a_number() {
    assert!(is_nan(string_to_number("abc")));
    assert!(is_nan(string_to_number("")));
    assert_eq!(string_to_number("42"), bits(42.0));
}

#[test]
fn characters_are_those_of_the_text() {
    assert_eq!(characters("a-b"), vec!['a', '-', 'b']);
    assert_eq!(characters(""), Vec::<char>::new());
    assert_eq!(characters("héllo"), vec!['h', 'é', 'l', 'l', 'o']);
}

#[test]
fn square_roots_are_those_of_the_hardware() {
    let samples: [f64; 30] = [
        0.0, 1.0, 2.0, 3.0, 4.0, 9.0, 16.0, 0.25, 0.5, 0.1, 10.0, 1e10, 1e-10, 1e300, 1e-300,
        5e-324, 1e-320, 2.2250738585072014e-308, 2.225073858507201e-308, 1.7976931348623157e308,
        123456789.0, 2147483648.0, 0.9999999999999999, 1.0000000000000002, 4.000000000000001,
        3.9999999999999996, 6.25, 1e22, 7.0, 1e-5,
    ];
    for x in samples {
        assert_eq!(boa::number::sqrt(bits(x)), bits(x.sqrt()), "sqrt({})", x);
    }
}

#[test]
fn square_roots_of_many_patterns_are_those_of_the_hardware() {
    let mut seed: u64 = 0x9E37_79B9_7F4A_7C15;
    for _ in 0..20000 {
        seed ^= seed << 13;
        seed ^= seed >> 7;
        seed ^= seed << 17;
        let x = f64::from_bits(seed & 0x7FFF_FFFF_FFFF_FFFF);
        if x.is_nan() || x.is_infinite() {
            continue;
        }
        assert_eq!(boa::number::sqrt(bits(x)), bits(x.sqrt()), "sqrt({:e})", x);
    }
}

#[test]
fn square_roots_of_special_numbers() {
    assert!(is_nan(boa::number::sqrt(NAN)));
    assert!(is_nan(boa::number::sqrt(bits(-1.0))));
    assert!(is_nan(boa::number::sqrt(NEG_INFINITY)));
    assert_eq!(boa::number::sqrt(INFINITY), INFINITY);
    assert_eq!(boa::number::sqrt(bits(-0.0)), bits(-0.0));
}

#[test]
fn whole_roots_are_exact() {
    assert_eq!(boa::number::integer_root(0), 0);
    assert_eq!(boa::number::integer_root(1), 1);
    assert_eq!(boa::number::integer_root(3), 1);
    assert_eq!(boa::number::integer_root(4), 2);
    assert_eq!(boa::number::integer_root(99), 9);
    assert_eq!(boa::number::integer_root(100), 10);
    assert_eq!(boa::number::integer_root((1u128 << 112) - 1), (1u64 << 56) - 1);
    assert_eq!(boa::number::integer_root(1u128 << 110), 1u64 << 55);
    assert_eq!(boa::number::integer_root(u128::MAX), u64::MAX);
    let big = 0xFFFF_FFFF_0000_0001u128;
    assert_eq!(boa::number::integer_root(big * big), big as u64);
    assert_eq!(boa::number::integer_root(big * big - 1), big as u64 - 1);
}

#[test]
fn powers_with_whole_exponents() {
    assert_eq!(boa::number::pow(bits(2.0), bits(10.0)), Some(bits(1024.0)));
    assert_eq!(boa::number::pow(bits(2.0), bits(-1.0)), Some(bits(0.5)));
    assert_eq!(boa::number::pow(bits(3.0), bits(4.0)), Some(bits(81.0)));
    assert_eq!(boa::number::pow(bits(-2.0), bits(3.0)), Some(bits(-8.0)));
    assert_eq!(boa::number::pow(bits(10.0), bits(2.0)), Some(bits(100.0)));
    assert_eq!(boa::number::pow(bits(1.5), bits(2.0)), Some(bits(2.25)));
    assert_eq!(boa::number::pow(bits(2.0), bits(1024.0)), Some(INFINITY));
    assert_eq!(boa::number::pow(bits(7.0), bits(1.0)), Some(bits(7.0)));
}

#[test]
fn powers_with_special_exponents() {
    assert_eq!(boa::number::pow(bits(5.0), bits(0.0)), Some(ONE));
    assert_eq!(boa::number::pow(NAN, bits(0.0)), Some(ONE));
    assert!(is_nan(boa::number::pow(bits(5.0), NAN).unwrap()));
    assert!(is_nan(boa::number::pow(NAN, bits(2.0)).unwrap()));
    assert_eq!(boa::number::pow(bits(2.0), INFINITY), Some(INFINITY));
    assert_eq!(boa::number::pow(bits(2.0), NEG_INFINITY), Some(ZERO));
    assert_eq!(boa::number::pow(bits(0.5), INFINITY), Some(ZERO));
    assert_eq!(boa::number::pow(bits(0.5), NEG_INFINITY), Some(INFINITY));
    assert!(is_nan(boa::number::pow(bits(1.0), INFINITY).unwrap()));
    assert!(is_nan(boa::number::pow(bits(-1.0), NEG_INFINITY).unwrap()));
    assert_eq!(boa::number::pow(bits(2.0), bits(0.5)), None);
}

#[test]
fn rounding_to_whole_numbers_is_that_of_the_hardware() {
    let mut seed: u64 = 0x6C62_272E_07BB_0142;
    let mut samples: Vec<f64> = vec![
        0.0, -0.0, 0.2, -0.2, 0.5, -0.5, 0.7, -0.7, 1.0, -1.0, 1.5, -1.5, 2.5, -2.5, 3.49, -3.51,
        0.49999999999999994, -0.49999999999999994, 4503599627370495.5, -4503599627370495.5,
        4503599627370496.0, 9007199254740993.0, 1e300, -1e300, 5e-324, -5e-324,
        f64::INFINITY, f64::NEG_INFINITY,
    ];
    for _ in 0..5000 {
        seed ^= seed << 13;
        seed ^= seed >> 7;
        seed ^= seed << 17;
        let x = f64::from_bits(seed);
        if !x.is_nan() {
            samples.push(x);
            samples.push((seed % 2_000_001) as f64 / 8.0 - 125_000.0);
        }
    }
    for x in samples {
        let down = f64::from_bits(boa::number::round(bits(x), boa::number::Rounding::Down));
        let up = f64::from_bits(boa::number::round(bits(x), boa::number::Rounding::Up));
        let near = f64::from_bits(boa::number::round(bits(x), boa::number::Rounding::Nearest));
        assert_eq!(down.to_bits(), x.floor().to_bits(), "floor of {:e}", x);
        assert_eq!(up.to_bits(), x.ceil().to_bits(), "ceiling of {:e}", x);
        let below = x.floor();
        let expected = if x - below >= 0.5 { below + 1.0 } else { below };
        assert!(near == expected, "nearest of {:e}: {:e} against {:e}", x, near, expected);
    }
    assert!(is_nan(boa::number::round(NAN, boa::number::Rounding::Down)));
    assert!(is_nan(boa::number::round(NAN, boa::number::Rounding::Nearest)));
}

#[test]
fn rounding_keeps_the_sign_of_zero() {
    let nearest = |x: f64| boa::number::round(bits(x), boa::number::Rounding::Nearest);
    assert_eq!(nearest(-0.2), bits(-0.0));
    assert_eq!(nearest(-0.5), bits(-0.0));
    assert_eq!(nearest(0.2), bits(0.0));
    assert_eq!(nearest(-0.0), bits(-0.0));
    assert_eq!(nearest(-0.51), bits(-1.0));
    assert_eq!(nearest(0.5), bits(1.0));
    assert_eq!(nearest(2.5), bits(3.0));
    assert_eq!(nearest(-2.5), bits(-2.0));
    assert_eq!(nearest(-3.5), bits(-3.0));
    assert_eq!(boa::number::round(bits(-0.5), boa::number::Rounding::Up), bits(-0.0));
    assert_eq!(boa::number::round(bits(0.5), boa::number::Rounding::Down), bits(0.0));
}
