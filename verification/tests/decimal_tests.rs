use passprompt::decimal::{parse_count, parse_digits, parse_unsigned, push_decimal};

#[test]
fn unsigned_reads_like_the_standard_library() {
    for text in [
        "", "0", "1", "+1", "+", "-1", "++1", "1+", " 1", "1 ", "007", "+007", "12a", "a12",
        "18446744073709551615", "18446744073709551616", "+18446744073709551615",
        "99999999999999999999999", "1_000", "٣", "0x10", "1e3",
    ] {
        assert_eq!(parse_unsigned(text), text.parse::<u64>().ok(), "{:?}", text);
        assert_eq!(parse_count(text), text.parse::<usize>().ok(), "{:?}", text);
    }
}

#[test]
fn digits_are_read_between_two_places() {
    let chars: Vec<char> = "ab123cd".chars().collect();
    assert_eq!(parse_digits(&chars, 2, 5), Some(123));
    assert_eq!(parse_digits(&chars, 2, 4), Some(12));
    assert_eq!(parse_digits(&chars, 2, 2), None);
    assert_eq!(parse_digits(&chars, 1, 5), None);
    assert_eq!(parse_digits(&chars, 2, 6), None);
}

#[test]
fn decimal_text_is_appended() {
    for n in [0u64, 1, 9, 10, 11, 99, 100, 12345, 1000000007, u64::MAX] {
        let mut out = String::from("n=");
        push_decimal(&mut out, n);
        assert_eq!(out, format!("n={}", n));
    }
}
