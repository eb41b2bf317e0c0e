use lib::text::{ascii_lowercase, find_char, is_whitespace, str_eq, trim_str};

#[test]
fn whitespace_agrees_with_std_on_every_char() {
    for code in 0u32..=0x10FFFF {
        if let Some(c) = char::from_u32(code) {
            assert_eq!(is_whitespace(c), c.is_whitespace(), "U+{:04X}", code);
        }
    }
}

#[test]
fn trim_agrees_with_std() {
    for s in ["", " ", "  a  ", "\u{2028}x\u{205F}", "a b", "\t\n", "\u{3000}\u{3000}z", "x\u{85}", "\u{200B}a"] {
        assert_eq!(trim_str(s), s.trim());
    }
}

#[test]
fn lowercase_agrees_with_std() {
    for s in ["", "ABC", "MiXeD", "ÀÉÎ", "Z9@[`", "already"] {
        assert_eq!(ascii_lowercase(s), s.to_ascii_lowercase());
    }
}

#[test]
fn comparing_and_finding() {
    assert!(str_eq("abc", "abc"));
    assert!(!str_eq("abc", "abd"));
    assert!(!str_eq("abc", "ab"));
    assert!(str_eq("", ""));
    assert_eq!(find_char("a=b=c", '='), Some(1));
    assert_eq!(find_char("é=1", '='), Some(1));
    assert_eq!(find_char("abc", '='), None);
}
