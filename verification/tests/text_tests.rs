use rustymeals::text::{
    i64_to_string, is_blank, join, parse_i64, str_eq, str_lt, tokens, trim, trim_end_char,
    u64_to_string, usize_to_string,
};

#[test]
fn trim_drops_unicode_whitespace_at_both_ends() {
    assert_eq!(trim("  pasta \t"), "pasta");
    assert_eq!(trim("\u{3000}a b\u{a0}"), "a b");
    assert_eq!(trim(""), "");
    assert_eq!(trim(" \n "), "");
    assert!(is_blank(" \t\r\n"));
    assert!(!is_blank(" x "));
}

#[test]
fn trim_end_char_strips_every_trailing_slash() {
    assert_eq!(trim_end_char("https://meals.example///", '/'), "https://meals.example");
    assert_eq!(trim_end_char("https://meals.example", '/'), "https://meals.example");
    assert_eq!(trim_end_char("///", '/'), "");
}

#[test]
fn decimal_formatting_matches_std() {
    for n in [0u64, 7, 10, 99, 100, 12345, u64::MAX] {
        assert_eq!(u64_to_string(n), n.to_string());
    }
    for x in [0i64, -1, 42, -67890, i64::MAX, i64::MIN] {
        assert_eq!(i64_to_string(x), x.to_string());
    }
    assert_eq!(usize_to_string(1000), "1000");
}

#[test]
fn parse_i64_matches_std() {
    for s in [
        "0", "12345", "-12345", "+7", "-", "+", "", " 1", "1 ", "12a", "9223372036854775807",
        "9223372036854775808", "-9223372036854775808", "-9223372036854775809", "007", "+-1",
    ] {
        assert_eq!(parse_i64(s), s.parse::<i64>().ok(), "input {s:?}");
    }
}

#[test]
fn decimal_roundtrip_for_every_sampled_i64() {
    for x in [0i64, 1, -1, 1_700_000_000, i64::MAX, i64::MIN] {
        assert_eq!(parse_i64(&i64_to_string(x)), Some(x));
    }
}

#[test]
fn tokens_split_and_drop_empty_pieces() {
    assert_eq!(tokens("italian,pasta", ','), vec!["italian", "pasta"]);
    assert_eq!(tokens("", ','), Vec::<String>::new());
    assert_eq!(tokens(",,a,,b,", ','), vec!["a", "b"]);
}

#[test]
fn join_then_tokens_gives_the_tags_back() {
    let tags = vec!["italian".to_string(), "".to_string(), "main course".to_string()];
    let joined = join(&tags, ",");
    assert_eq!(joined, "italian,,main course");
    assert_eq!(tokens(&joined, ','), vec!["italian", "main course"]);
}

#[test]
fn string_order_and_equality() {
    assert!(str_lt("apple", "banana"));
    assert!(str_lt("milk", "milks"));
    assert!(!str_lt("milk", "milk"));
    assert!(!str_lt("b", "a"));
    assert!(str_lt("Z", "a"));
    assert!(str_eq("eggs", "eggs"));
    assert!(!str_eq("eggs", "egg"));
}
