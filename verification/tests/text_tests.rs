use system_info::get_line_from_file;
use system_info::text::{
    chars_of, contains, lines, matching_lines, same_text, scan, split, split_whitespace,
    whitespace, CharClass,
};

#[test]
fn lines_are_cut_at_line_feeds() {
    assert_eq!(lines("foo\nbar\n\r\nbaz\r"), vec!["foo", "bar", "", "baz\r"]);
    assert_eq!(lines("a\r\nb\n"), vec!["a", "b"]);
    assert_eq!(lines(""), Vec::<&str>::new());
    assert_eq!(lines("\n"), vec![""]);
    assert_eq!(lines("one"), vec!["one"]);
    assert_eq!(lines("\r\n\r\n"), vec!["", ""]);
}

#[test]
fn lines_agree_with_the_standard_library() {
    let texts = ["", "\n", "a", "a\n", "a\r\n", "a\r", "\r", "a\n\nb", "a\r\r\nb\r", "é\nü\r\n"];
    for text in texts.iter() {
        let expected: Vec<&str> = text.lines().collect();
        assert_eq!(lines(text), expected);
    }
}

#[test]
fn fields_keep_the_empty_ones() {
    assert_eq!(split("cpu  1 2", ' '), vec!["cpu", "", "1", "2"]);
    assert_eq!(split("", ' '), vec![""]);
    assert_eq!(split("a ", ' '), vec!["a", ""]);
    assert_eq!(split(" ", ' '), vec!["", ""]);
    assert_eq!(split("no-space", ' '), vec!["no-space"]);
}

#[test]
fn words_are_stretches_without_white_space() {
    assert_eq!(split_whitespace("  Pid:\t42 \n"), vec!["Pid:", "42"]);
    assert_eq!(split_whitespace(" \t "), Vec::<&str>::new());
    assert_eq!(split_whitespace(""), Vec::<&str>::new());
    assert_eq!(split_whitespace("a\u{3000}b"), vec!["a", "b"]);
    assert_eq!(split_whitespace("x"), vec!["x"]);
}

#[test]
fn white_space_is_the_unicode_property() {
    for code in 0u32..0x11000 {
        if let Some(c) = char::from_u32(code) {
            assert_eq!(whitespace(c), c.is_whitespace());
        }
    }
}

#[test]
fn scan_stops_at_the_first_character_outside_the_class() {
    let cs = chars_of("ab  cd");
    assert_eq!(cs, vec!['a', 'b', ' ', ' ', 'c', 'd']);
    assert_eq!(scan(&cs, 0, CharClass::Word), 2);
    assert_eq!(scan(&cs, 2, CharClass::Space), 4);
    assert_eq!(scan(&cs, 4, CharClass::Word), 6);
    assert_eq!(scan(&cs, 0, CharClass::Except('c')), 4);
    assert_eq!(scan(&cs, 0, CharClass::Space), 0);
    assert_eq!(scan(&cs, 6, CharClass::Word), 6);
    assert!(CharClass::Except('x').test('y'));
    assert!(!CharClass::Except('x').test('x'));
}

#[test]
fn contains_finds_the_needle_anywhere() {
    assert!(contains("MemTotal:  100 kB", "MemTotal"));
    assert!(contains("xxMemFree", "MemFree"));
    assert!(contains("abc", ""));
    assert!(contains("", ""));
    assert!(!contains("", "a"));
    assert!(!contains("MemTota", "MemTotal"));
    assert!(!contains("memtotal", "MemTotal"));
    assert!(contains("aab", "ab"));
}

#[test]
fn matching_lines_keep_their_order() {
    let file = "Pid:\t1\nName:\tx\nPPid:\t0\nTracerPid:\t0\n";
    assert_eq!(matching_lines(file, "Pid"), vec!["Pid:\t1", "PPid:\t0", "TracerPid:\t0"]);
    assert_eq!(matching_lines(file, "Uid"), Vec::<&str>::new());
}

#[test]
fn same_text_compares_character_by_character() {
    assert!(same_text("stat", "stat"));
    assert!(!same_text("stat", "status"));
    assert!(!same_text("stat", "stau"));
    assert!(same_text("", ""));
}

#[test]
fn line_with_pattern_is_found() {
    let file = "Name:\tbash\nState:\tS (sleeping)\nPid:\t42\nPPid:\t1\n";
    assert_eq!(get_line_from_file(file, "Pid"), Some(vec!["Pid:", "42"]));
    assert_eq!(get_line_from_file(file, "State"), Some(vec!["State:", "S", "(sleeping)"]));
    assert_eq!(get_line_from_file(file, "VmRSS"), None);
    assert_eq!(get_line_from_file("  \n", " "), Some(Vec::<&str>::new()));
}
