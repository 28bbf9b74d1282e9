use sgxtuner::text::{
    i64_to_string, parse_bool, parse_decimal, replace, split_char, split_whitespace, str_eq, u64_to_string,
    usize_to_string,
};

#[test]
fn parse_decimal_accepts_digits_and_plus() {
    assert_eq!(parse_decimal("42", 100), Some(42));
    assert_eq!(parse_decimal("+7", 100), Some(7));
    assert_eq!(parse_decimal("0", 0), Some(0));
}

#[test]
fn parse_decimal_rejects_bad_text_and_overflow() {
    assert_eq!(parse_decimal("", 100), None);
    assert_eq!(parse_decimal("+", 100), None);
    assert_eq!(parse_decimal("-1", 100), None);
    assert_eq!(parse_decimal("12a", 100), None);
    assert_eq!(parse_decimal("101", 100), None);
    assert_eq!(parse_decimal("65536", 65535), None);
    assert_eq!(parse_decimal("65535", 65535), Some(65535));
}

#[test]
fn decimal_text_round_trip() {
    for n in [0usize, 9, 10, 99, 1234567] {
        let t = usize_to_string(n);
        assert_eq!(t, n.to_string());
        assert_eq!(parse_decimal(&t, u64::MAX), Some(n as u64));
    }
    assert_eq!(u64_to_string(u64::MAX), u64::MAX.to_string());
}

#[test]
fn signed_text_matches_std() {
    for i in [0i64, 5, -5, 14200, i64::MAX, i64::MIN] {
        assert_eq!(i64_to_string(i), i.to_string());
    }
}

#[test]
fn parse_bool_reads_true_and_false_only() {
    assert_eq!(parse_bool("true"), Some(true));
    assert_eq!(parse_bool("false"), Some(false));
    assert_eq!(parse_bool("True"), None);
}

#[test]
fn split_char_keeps_empty_pieces() {
    assert_eq!(split_char("a|b||c|", '|'), vec!["a", "b", "", "c", ""]);
    assert_eq!(split_char("", '|'), vec![""]);
}

#[test]
fn split_whitespace_matches_std() {
    let s = "  -l 127.0.0.1\t-p  80 \n";
    let expected: Vec<String> = s.split_whitespace().map(|x| x.to_string()).collect();
    assert_eq!(split_whitespace(s), expected);
    assert!(split_whitespace("   ").is_empty());
}

#[test]
fn replace_matches_std() {
    assert_eq!(replace("[20", "[", ""), "20");
    assert_eq!(replace("aaa", "aa", "b"), "aaa".replace("aa", "b"));
    assert_eq!(replace("ab", "", "-"), "ab".replace("", "-"));
    assert_eq!(replace("x y x", "x", "z"), "z y z");
}

#[test]
fn str_eq_compares_texts() {
    assert!(str_eq("start_bench", "start_bench"));
    assert!(!str_eq("start_bench", "start_benc"));
}
