use fishnet::decimal::{number_text, parse_number, parse_signed, push_number, signed_text};

#[test]
fn numbers_are_written() {
    assert_eq!(number_text(0), "0");
    assert_eq!(number_text(7), "7");
    assert_eq!(number_text(1_048_576), "1048576");
    assert_eq!(number_text(u128::MAX), u128::MAX.to_string());
    assert_eq!(signed_text(-9), "-9");
    assert_eq!(signed_text(20), "20");
    assert_eq!(signed_text(i64::MIN), "-9223372036854775808");
    let mut text = String::from("depth ");
    push_number(&mut text, 18);
    assert_eq!(text, "depth 18");
}

#[test]
fn numbers_are_read_as_std_reads_them() {
    let texts = [
        "", "0", "00", "7", "+7", "-7", "+", "-", "++1", "+-1", "--1", " 7", "7 ", "1_000", "255",
        "256", "0255", "00000000000000000000000255", "18446744073709551615",
        "18446744073709551616", "99999999999999999999999", "4294967295", "4294967296", "x", "1x",
        "٣", "-9223372036854775808", "-9223372036854775809", "9223372036854775807",
        "9223372036854775808", "-0",
    ];
    for text in texts {
        assert_eq!(parse_number(text, 255), text.parse::<u8>().ok().map(u64::from), "{text}");
        assert_eq!(
            parse_number(text, u64::from(u32::MAX)),
            text.parse::<u32>().ok().map(u64::from),
            "{text}"
        );
        assert_eq!(parse_number(text, u64::MAX), text.parse::<u64>().ok(), "{text}");
        assert_eq!(parse_signed(text), text.parse::<i64>().ok(), "{text}");
    }
}

#[test]
fn small_limits_are_kept() {
    assert_eq!(parse_number("0", 0), Some(0));
    assert_eq!(parse_number("1", 0), None);
    assert_eq!(parse_number("7", 5), None);
    assert_eq!(parse_number("12", 12), Some(12));
    assert_eq!(parse_number("13", 12), None);
}

#[test]
fn written_numbers_are_read_back() {
    for n in [0_u64, 9, 10, 99, 100, 12_345, u64::MAX] {
        assert_eq!(parse_number(&number_text(u128::from(n)), u64::MAX), Some(n));
    }
    for n in [0_i64, -1, 1, i64::MIN, i64::MAX, -100] {
        assert_eq!(parse_signed(&signed_text(n)), Some(n));
    }
}
