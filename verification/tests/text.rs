use module_manager::text::{
    blank, char_is_whitespace, is_delimiter, split_fields, split_lines, Delimiter,
};

const SAMPLES: [&str; 24] = [
    "",
    "a",
    "/",
    "a/b",
    "/a/b",
    "a/b/",
    "//a//b//",
    " a  b ",
    "a\tb\nc",
    "one two\u{a0}three\u{2003}four",
    "\u{85}x\u{1680}y\u{3000}",
    "\u{200b}zero width is no space",
    "line one\nline two",
    "line one\nline two\n",
    "crlf\r\nnext\r\n",
    "lone\rcr",
    "ends with cr\r",
    "two cr\r\r\nnext",
    "\n",
    "\n\n",
    "\r\n",
    "\r",
    "a\n\nb",
    "\u{e9}t\u{e9}/\u{4e2d}\u{6587}/x",
];

#[test]
fn whitespace_is_what_the_standard_library_calls_whitespace() {
    for n in 0..=0x10FFFFu32 {
        if let Some(c) = char::from_u32(n) {
            assert_eq!(char_is_whitespace(c), c.is_whitespace(), "U+{:04X}", n);
        }
    }
}

#[test]
fn delimiters_are_told_apart() {
    assert!(is_delimiter(Delimiter::Slash, '/'));
    assert!(!is_delimiter(Delimiter::Slash, '\\'));
    assert!(!is_delimiter(Delimiter::Slash, ' '));
    assert!(is_delimiter(Delimiter::Whitespace, ' '));
    assert!(is_delimiter(Delimiter::Whitespace, '\n'));
    assert!(!is_delimiter(Delimiter::Whitespace, '/'));
    assert!(is_delimiter(Delimiter::LineFeed, '\n'));
    assert!(!is_delimiter(Delimiter::LineFeed, '\r'));
}

#[test]
fn segments_are_the_parts_between_slashes() {
    assert_eq!(split_fields("/system/bin/sh", Delimiter::Slash), vec!["system", "bin", "sh"]);
    assert_eq!(split_fields("//a///b//", Delimiter::Slash), vec!["a", "b"]);
    assert_eq!(split_fields("a b/c", Delimiter::Slash), vec!["a b", "c"]);
    assert!(split_fields("", Delimiter::Slash).is_empty());
    assert!(split_fields("////", Delimiter::Slash).is_empty());
}

#[test]
fn segments_match_split_and_filter() {
    for s in SAMPLES {
        let expected: Vec<&str> = s.split('/').filter(|p| !p.is_empty()).collect();
        assert_eq!(split_fields(s, Delimiter::Slash), expected, "{:?}", s);
    }
}

#[test]
fn words_match_split_whitespace() {
    for s in SAMPLES {
        let expected: Vec<&str> = s.split_whitespace().collect();
        assert_eq!(split_fields(s, Delimiter::Whitespace), expected, "{:?}", s);
    }
}

#[test]
fn words_are_the_parts_between_white_space() {
    assert_eq!(
        split_fields("  emulator-5554\tdevice \r\n", Delimiter::Whitespace),
        vec!["emulator-5554", "device"]
    );
}

#[test]
fn lines_match_the_standard_library() {
    for s in SAMPLES {
        let expected: Vec<&str> = s.lines().collect();
        assert_eq!(split_lines(s), expected, "{:?}", s);
    }
}

#[test]
fn lines_end_at_line_feeds() {
    assert_eq!(split_lines("a\nb\n"), vec!["a", "b"]);
    assert_eq!(split_lines("a\nb"), vec!["a", "b"]);
    assert_eq!(split_lines("a\n\nb"), vec!["a", "", "b"]);
    assert_eq!(split_lines("a\r\nb\r\n"), vec!["a", "b"]);
    assert_eq!(split_lines("a\r"), vec!["a\r"]);
    assert_eq!(split_lines("a\r\r\n"), vec!["a\r"]);
    assert_eq!(split_lines("a\rb\n"), vec!["a\rb"]);
    assert_eq!(split_lines("\n"), vec![""]);
    assert!(split_lines("").is_empty());
}

#[test]
fn blank_means_white_space_only() {
    assert!(blank(""));
    assert!(blank(" \t\r\n"));
    assert!(blank("\u{a0}\u{2003}"));
    assert!(!blank(" x "));
    assert!(!blank("\u{200b}"));
    for s in SAMPLES {
        assert_eq!(blank(s), s.trim().is_empty(), "{:?}", s);
    }
}
