use qt_sources_gen::hex::encode;
use qt_sources_gen::text::{
    contains_exec, ends_with_exec, lines_exec, rsplit_once_exec, split_once_exec, starts_with_exec,
    str_eq, str_lt, strip_prefix_exec, trim_exec, utf8_len_is,
};

#[test]
fn lines_like_std() {
    for s in ["", "a", "a\n", "a\nb", "a\r\nb\r\n", "\n", "\n\n", "x\r", "a\rb\n\r\nc", "é\nü"] {
        let expected: Vec<&str> = s.lines().collect();
        assert_eq!(lines_exec(s), expected, "{s:?}");
    }
}

#[test]
fn trim_like_std() {
    for s in ["", "  ", " a ", "\u{a0}x\u{3000}", "\t\r\n y \u{2029}", "a b", "\u{85}z\u{200b}"] {
        assert_eq!(trim_exec(s), s.trim(), "{s:?}");
    }
}

#[test]
fn split_like_std() {
    for (s, p) in [("a  b", "  "), ("a   b", "  "), ("ab", "  "), ("", "x"), ("x) = y) = z", ") = ")] {
        assert_eq!(split_once_exec(s, p), s.split_once(p), "{s:?} {p:?}");
    }
    for s in ["6.11.0", "611", ".", "a.b.", "ü.é"] {
        assert_eq!(rsplit_once_exec(s, '.'), s.rsplit_once('.'), "{s:?}");
    }
}

#[test]
fn predicates_like_std() {
    let cases = [("abc", "ab"), ("abc", "bc"), ("abc", ""), ("", "a"), ("aaa", "aa"), ("ab", "abc")];
    for (s, p) in cases {
        assert_eq!(starts_with_exec(s, p), s.starts_with(p));
        assert_eq!(ends_with_exec(s, p), s.ends_with(p));
        assert_eq!(contains_exec(s, p), s.contains(p));
        assert_eq!(strip_prefix_exec(s, p), s.strip_prefix(p));
        assert_eq!(str_eq(s, p), s == p);
        assert_eq!(str_lt(s, p), s < p);
        assert_eq!(str_lt(p, s), p < s);
    }
    assert!(str_lt("z", "é"));
    assert!(utf8_len_is("é", 2));
    assert!(!utf8_len_is("é", 1));
    assert!(utf8_len_is("", 0));
}

#[test]
fn hex_encoding() {
    assert_eq!(encode(&[]), "");
    assert_eq!(encode(&[0x00, 0x0f, 0xa0, 0xff, 0x12]), "000fa0ff12");
}
