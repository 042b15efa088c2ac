use transtractor_rs::text::{is_blank, is_white_space_char, split_lines};

fn lines(s: &str) -> Vec<String> {
    split_lines(s)
}

#[test]
fn split_lines_follows_line_endings() {
    assert_eq!(lines("foo\r\nbar\n\nbaz\r"), vec!["foo", "bar", "", "baz\r"]);
    assert_eq!(lines(""), Vec::<String>::new());
    assert_eq!(lines("\n"), vec![""]);
    assert_eq!(lines("a\n"), vec!["a"]);
    assert_eq!(lines("a\nb"), vec!["a", "b"]);
    assert_eq!(lines("a\n\n"), vec!["a", ""]);
    assert_eq!(lines("\r\n"), vec![""]);
    assert_eq!(lines("x\r\r\ny"), vec!["x\r", "y"]);
}

#[test]
fn split_lines_agrees_with_str_lines() {
    let samples = [
        "",
        "one",
        "one\ntwo",
        "one\r\ntwo\r\n",
        "\n\n\n",
        "\r",
        "\r\r\n\r",
        "tab\tline\n  \n\u{3000}\n",
        "Café ☕\r\nDate 01/02\n",
    ];
    for s in samples {
        let expected: Vec<String> = s.lines().map(|l| l.to_string()).collect();
        assert_eq!(lines(s), expected, "text {:?}", s);
    }
}

#[test]
fn final_line_ending_is_optional() {
    assert_eq!(lines("alpha\nbeta"), lines("alpha\nbeta\n"));
}

#[test]
fn rejoined_lines_give_text_back() {
    let text = "first\n\nthird\n";
    assert_eq!(lines(text).join("\n"), "first\n\nthird");
}

#[test]
fn white_space_agrees_with_char_is_whitespace() {
    for u in 0u32..=0x10FFFF {
        if let Some(c) = char::from_u32(u) {
            assert_eq!(is_white_space_char(c), c.is_whitespace(), "char {:#x}", u);
        }
    }
}

#[test]
fn blank_text_is_white_space_only() {
    assert!(is_blank(""));
    assert!(is_blank(" \t\r\u{3000}\u{85}\u{a0}"));
    assert!(!is_blank(" x "));
    assert!(!is_blank("\u{200b}"));
    for s in ["", "  ", "a", " a ", "\u{2028}", "\u{180e}"] {
        assert_eq!(is_blank(s), s.trim().is_empty(), "text {:?}", s);
    }
}

#[test]
fn lines_hold_no_line_feed() {
    for s in ["a\nb\n\nc", "\n\n", "x\r\ny\r"] {
        assert!(lines(s).iter().all(|l| !l.contains('\n')));
    }
}
