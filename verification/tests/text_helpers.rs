use tv::strings::{
    bytes_of, chars_of, concat3, decimal_string, is_white_space, join_strings,
    pasted_text, pop_empty_lines, position_of, string_of, string_of_range, strip_prefix, text,
    trimmed_end,
};

#[test]
fn white_space_is_that_of_unicode() {
    for n in 0..=0x10ffff {
        if let Some(c) = char::from_u32(n) {
            assert_eq!(is_white_space(c), c.is_whitespace(), "{:?}", c);
        }
    }
}

#[test]
fn characters_and_strings() {
    assert_eq!(chars_of("añ…"), vec!['a', 'ñ', '…']);
    assert_eq!(string_of(&['a', 'ñ', '…']), "añ…");
    assert_eq!(string_of_range(&['a', 'ñ', '…'], 1, 2), "ñ");
    assert_eq!(text("añ"), "añ");
    assert_eq!(tv::strings::concat("a", "ñ"), "añ");
    assert_eq!(concat3("a", "", "ñ"), "añ");
    assert_eq!(bytes_of("añ…"), "añ…".as_bytes());
    assert_eq!(bytes_of(""), b"");
}

#[test]
fn prefixes() {
    let v = chars_of("@work");
    assert_eq!(strip_prefix(&v, "@"), Some(&['w', 'o', 'r', 'k'][..]));
    assert_eq!(strip_prefix(&v, ""), Some(&v[..]));
    assert_eq!(strip_prefix(&v, "@x"), None);
    assert_eq!(strip_prefix(&v, "@works"), None);
}

#[test]
fn positions() {
    let v = chars_of("a:b:c");
    assert_eq!(position_of(&v, ':'), 1);
    assert_eq!(position_of(&v, 'a'), 0);
    assert_eq!(position_of(&v, 'x'), 5);
}

#[test]
fn decimal_numbers() {
    assert_eq!(decimal_string(0), "0");
    assert_eq!(decimal_string(10), "10");
    assert_eq!(decimal_string(9_007), "9007");
    assert_eq!(decimal_string(u64::MAX), format!("{}", u64::MAX));
}

#[test]
fn lines() {
    assert_eq!(trimmed_end(&chars_of("a b \t\u{3000}")), "a b");
    assert_eq!(trimmed_end(&chars_of("  ")), "");
    let lines = ["a".to_string(), "".to_string(), "b".to_string()];
    assert_eq!(join_strings(&lines, "\n"), "a\n\nb");
    assert_eq!(join_strings(&[], "\n"), "");
    let mut lines = vec!["a".to_string(), "".to_string(), "b".to_string(), "".to_string()];
    pop_empty_lines(&mut lines);
    assert_eq!(lines, ["a", "", "b"]);
    let mut none = vec!["".to_string(), "".to_string()];
    pop_empty_lines(&mut none);
    assert!(none.is_empty());
}

#[test]
fn pasted_newlines_are_enter() {
    assert_eq!(pasted_text("a\nb\r\nc\rd\n"), "a\rb\rc\rd\r");
    assert_eq!(pasted_text("\n\n"), "\r\r");
    assert!(!pasted_text("x\ny\r\n\n").contains('\n'));
}
