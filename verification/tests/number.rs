use lib::number::{parse_i32, parse_u64, push_decimal, push_signed_decimal};

const SAMPLES: &[&str] = &[
    "", "0", "7", "+7", "-7", "+", "-", "+-1", "-+1", "007", " 1", "1 ", "1_000", "12a", "٣",
    "2147483647", "2147483648", "-2147483648", "-2147483649", "4294967296",
    "18446744073709551615", "18446744073709551616", "+18446744073709551615",
    "99999999999999999999999", "99999999999999999999999x", "-0", "+0",
];

#[test]
fn u64_reading_agrees_with_std() {
    for s in SAMPLES {
        assert_eq!(parse_u64(s), s.parse::<u64>().ok(), "{:?}", s);
    }
}

#[test]
fn i32_reading_agrees_with_std() {
    for s in SAMPLES {
        assert_eq!(parse_i32(s), s.parse::<i32>().ok(), "{:?}", s);
    }
}

#[test]
fn exact_values() {
    assert_eq!(parse_u64("+42"), Some(42));
    assert_eq!(parse_u64("18446744073709551615"), Some(u64::MAX));
    assert_eq!(parse_i32("-2147483648"), Some(i32::MIN));
    assert_eq!(parse_i32("2147483647"), Some(i32::MAX));
    assert_eq!(parse_i32("-12"), Some(-12));
}

#[test]
fn decimal_text_agrees_with_format() {
    for n in [0u64, 1, 9, 10, 99, 100, 12345, u64::MAX, 1 << 40] {
        let mut s = String::from("x");
        push_decimal(&mut s, n);
        assert_eq!(s, format!("x{n}"));
    }
    for n in [0i32, 1, -1, 42, -42, i32::MAX, i32::MIN] {
        let mut s = String::new();
        push_signed_decimal(&mut s, n);
        assert_eq!(s, n.to_string());
    }
}
