use coldb::text::{
    bool_failure_message, format_bool, format_i32, int_failure_message, parse_bool_text, parse_i32,
    parse_u64, text_eq, text_less, IntFailure,
};

#[test]
fn parses_plain_integers() {
    assert_eq!(parse_i32("12"), Ok(12));
    assert_eq!(parse_i32("0"), Ok(0));
    assert_eq!(parse_i32("-0"), Ok(0));
    assert_eq!(parse_i32("007"), Ok(7));
    assert_eq!(parse_i32("-2147483648"), Ok(i32::MIN));
    assert_eq!(parse_i32("2147483647"), Ok(i32::MAX));
    assert_eq!(parse_i32("+7"), Ok(7));
    assert_eq!(parse_i32("000000000000000000000000000000005"), Ok(5));
}

#[test]
fn says_why_a_text_writes_no_integer() {
    assert_eq!(parse_i32(""), Err(IntFailure::Empty));
    assert_eq!(parse_i32("-"), Err(IntFailure::InvalidDigit));
    assert_eq!(parse_i32("+"), Err(IntFailure::InvalidDigit));
    assert_eq!(parse_i32("12a"), Err(IntFailure::InvalidDigit));
    assert_eq!(parse_i32(" 12"), Err(IntFailure::InvalidDigit));
    assert_eq!(parse_i32("1.5"), Err(IntFailure::InvalidDigit));
    assert_eq!(parse_i32("+-1"), Err(IntFailure::InvalidDigit));
    assert_eq!(parse_i32("٣"), Err(IntFailure::InvalidDigit));
    assert_eq!(parse_i32("2147483648"), Err(IntFailure::PosOverflow));
    assert_eq!(parse_i32("-2147483649"), Err(IntFailure::NegOverflow));
    assert_eq!(parse_i32("99999999999x"), Err(IntFailure::PosOverflow));
    assert_eq!(parse_i32("-99999999999x"), Err(IntFailure::NegOverflow));
    assert_eq!(parse_i32("21474836x8"), Err(IntFailure::InvalidDigit));
}

#[test]
fn reads_integers_as_the_standard_library_does() {
    let samples = [
        "", "-", "+", "0", "-1", "+1", "12", "1 2", "2147483647", "2147483648", "-2147483648",
        "-2147483649", "4294967296", "abc", "12abc", "0x10", "1e3", "--1", "00012", "-00012",
        "9999999999999999999999", "-9999999999999999999999", "99999999999999999999a",
    ];
    for s in samples {
        let ours = parse_i32(s);
        let theirs = s.parse::<i32>();
        match (ours, theirs) {
            (Ok(a), Ok(b)) => assert_eq!(a, b, "on {:?}", s),
            (Err(failure), Err(e)) => {
                assert_eq!(int_failure_message(failure), e.to_string(), "on {:?}", s)
            }
            (a, b) => panic!("on {:?}: {:?} against {:?}", s, a, b),
        }
    }
}

#[test]
fn writes_integers() {
    assert_eq!(format_i32(-120), "-120");
    assert_eq!(format_i32(0), "0");
    assert_eq!(format_i32(7), "7");
    assert_eq!(format_i32(1005), "1005");
    assert_eq!(format_i32(i32::MAX), "2147483647");
    assert_eq!(format_i32(i32::MIN), "-2147483648");
}

#[test]
fn what_is_written_reads_back() {
    for v in [0, 1, -1, 9, 10, 99, 100, -100, 123456789, i32::MAX, i32::MIN] {
        assert_eq!(format_i32(v), v.to_string());
        assert_eq!(parse_i32(&format_i32(v)), Ok(v));
    }
    for b in [true, false] {
        assert_eq!(parse_bool_text(&format_bool(b)), Some(b));
    }
}

#[test]
fn reads_and_writes_booleans() {
    assert_eq!(parse_bool_text("true"), Some(true));
    assert_eq!(parse_bool_text("false"), Some(false));
    assert_eq!(parse_bool_text("True"), None);
    assert_eq!(parse_bool_text("1"), None);
    assert_eq!(parse_bool_text(""), None);
    assert_eq!(parse_bool_text("true "), None);
    assert_eq!(format_bool(true), "true");
    assert_eq!(format_bool(false), "false");
    assert_eq!(
        bool_failure_message(),
        "x".parse::<bool>().unwrap_err().to_string()
    );
}

#[test]
fn reads_counts() {
    assert_eq!(parse_u64("0"), Some(0));
    assert_eq!(parse_u64("+5"), Some(5));
    assert_eq!(parse_u64("18446744073709551615"), Some(u64::MAX));
    assert_eq!(parse_u64("18446744073709551616"), None);
    assert_eq!(parse_u64("-1"), None);
    assert_eq!(parse_u64(""), None);
    assert_eq!(parse_u64("+"), None);
    assert_eq!(parse_u64("1.5"), None);
    assert_eq!(parse_u64("000000000000000000000000012"), Some(12));
}

#[test]
fn orders_texts_by_code_point() {
    assert!(text_less("a", "b"));
    assert!(!text_less("b", "a"));
    assert!(!text_less("a", "a"));
    assert!(text_less("", "a"));
    assert!(!text_less("a", ""));
    assert!(!text_less("", ""));
    assert!(text_less("ab", "abc"));
    assert!(text_less("abc", "abd"));
    assert!(text_less("Z", "a"));
    assert!(text_less("z", "é"));
    assert!(text_less("é", "日"));
    let samples = ["", "a", "ab", "abc", "b", "B", "é", "e", "日本", "zz", "a b", "a\u{10FFFF}"];
    for x in samples {
        for y in samples {
            assert_eq!(text_less(x, y), x < y, "{:?} < {:?}", x, y);
            assert_eq!(text_eq(x, y), x == y, "{:?} == {:?}", x, y);
        }
    }
}
