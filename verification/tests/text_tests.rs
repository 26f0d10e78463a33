use shell_pipeline::text::{char_is_whitespace, chars_of, push_joined, tokenize, trim_bounds};

#[test]
fn whitespace_is_what_unicode_says() {
    for code in 0..=0x11_0000u32 {
        if let Some(c) = char::from_u32(code) {
            assert_eq!(char_is_whitespace(c), c.is_whitespace(), "U+{:04X}", code);
        }
    }
}

#[test]
fn whitespace_examples() {
    assert!(char_is_whitespace(' '));
    assert!(char_is_whitespace('\t'));
    assert!(char_is_whitespace('\n'));
    assert!(char_is_whitespace('\u{3000}'));
    assert!(!char_is_whitespace('a'));
    assert!(!char_is_whitespace('|'));
    assert!(!char_is_whitespace('&'));
    assert!(!char_is_whitespace('\u{200b}'));
}

#[test]
fn chars_of_text() {
    assert_eq!(chars_of(""), Vec::<char>::new());
    assert_eq!(chars_of("añ€"), vec!['a', 'ñ', '€']);
}

#[test]
fn trim_bounds_of_ranges() {
    let chars = chars_of("  ab c \t");
    assert_eq!(trim_bounds(&chars, 0, chars.len()), (2, 6));
    assert_eq!(trim_bounds(&chars, 3, 5), (3, 4));
    assert_eq!(trim_bounds(&chars, 2, 6), (2, 6));
    let (a, b) = trim_bounds(&chars, 6, 8);
    assert_eq!(a, b);
    let (a, b) = trim_bounds(&chars, 4, 4);
    assert_eq!((a, b), (4, 4));
    let blank = chars_of(" \u{a0}\n");
    let (a, b) = trim_bounds(&blank, 0, 3);
    assert_eq!(a, b);
}

#[test]
fn trim_bounds_agrees_with_trim() {
    for text in ["", " ", "a", " a", "a ", "  a b  ", "\t\u{2003}x y\u{3000}\n", "é  "] {
        let chars = chars_of(text);
        let (a, b) = trim_bounds(&chars, 0, chars.len());
        let kept: String = chars[a..b].iter().collect();
        assert_eq!(kept, text.trim());
    }
}

#[test]
fn tokenize_examples() {
    assert_eq!(tokenize(""), Vec::<String>::new());
    assert_eq!(tokenize("  \t "), Vec::<String>::new());
    assert_eq!(tokenize("ls"), vec!["ls"]);
    assert_eq!(tokenize("  ls   -l  "), vec!["ls", "-l"]);
    assert_eq!(tokenize("a\tb\nc\u{3000}d"), vec!["a", "b", "c", "d"]);
    assert_eq!(tokenize("< in > out"), vec!["<", "in", ">", "out"]);
}

#[test]
fn tokenize_agrees_with_split_whitespace() {
    for text in ["", "a", " a  b ", "grep -v  ñandú\t< in.txt", "\u{2003}x\u{a0}y\u{85}z "] {
        let expected: Vec<String> = text.split_whitespace().map(|w| w.to_string()).collect();
        assert_eq!(tokenize(text), expected);
    }
}

#[test]
fn push_joined_writes_the_separator_between() {
    let mut text = String::new();
    push_joined(&mut text, "a", ", ", true);
    assert_eq!(text, "a");
    push_joined(&mut text, "b", ", ", false);
    assert_eq!(text, "a, b");
    push_joined(&mut text, "", ", ", false);
    assert_eq!(text, "a, b, ");
    let mut other = String::from("x");
    push_joined(&mut other, "y", "-", true);
    assert_eq!(other, "xy");
}
