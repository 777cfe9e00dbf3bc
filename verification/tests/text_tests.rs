use cnctd_server::text::{parse_usize_str, split_str, strip_prefixes_str, trim_str};

#[test]
fn split_keeps_empty_pieces() {
    assert_eq!(split_str("a,b,,c", ','), vec!["a", "b", "", "c"]);
    assert_eq!(split_str("", ','), vec![""]);
    assert_eq!(split_str(",", ','), vec!["", ""]);
    assert_eq!(split_str("abc", ','), vec!["abc"]);
}

#[test]
fn trim_removes_unicode_white_space() {
    assert_eq!(trim_str("  a b \t\n"), "a b");
    assert_eq!(trim_str("\u{3000}x\u{a0}"), "x");
    assert_eq!(trim_str("   "), "");
    assert_eq!(trim_str("x"), "x");
}

#[test]
fn strip_prefixes_strips_every_repetition() {
    assert_eq!(strip_prefixes_str("/api//api/users", "/api/"), "users");
    assert_eq!(strip_prefixes_str("/api/api/users", "/api/"), "api/users");
    assert_eq!(strip_prefixes_str("/apix", "/api/"), "/apix");
    assert_eq!(strip_prefixes_str("abc", ""), "abc");
    for (t, p) in [("/api//api/x", "/api"), ("aaab", "a"), ("abab", "ab"), ("", "x")] {
        assert_eq!(strip_prefixes_str(t, p), t.trim_start_matches(p));
    }
}

#[test]
fn parse_usize_as_std_does() {
    for t in ["0", "42", "+7", "007", "", "+", "-1", "1a", " 1", "18446744073709551615", "18446744073709551616", "99999999999999999999999"] {
        assert_eq!(parse_usize_str(t), t.parse::<usize>().ok(), "input {:?}", t);
    }
}
