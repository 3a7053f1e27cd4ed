use cargo_asm::line_cache::{char_is_whitespace, FileLineCache, Lines, whole_lines_before};

#[test]
fn lines_are_counted_from_one() {
    let lines = Lines::load("first\nsecond\nthird\n");
    assert_eq!(lines.get_line(0), None);
    assert_eq!(lines.get_line(1), Some("first".to_string()));
    assert_eq!(lines.get_line(2), Some("second".to_string()));
    assert_eq!(lines.get_line(3), Some("third".to_string()));
    assert_eq!(lines.get_line(4), None);
    assert_eq!(lines.get_line(u32::MAX), None);
}

#[test]
fn trailing_white_space_is_removed() {
    let lines = Lines::load("  fn main() {  \t\r\n\n    x \u{a0}\u{3000}\nend");
    assert_eq!(lines.get_line(1), Some("  fn main() {".to_string()));
    assert_eq!(lines.get_line(2), Some(String::new()));
    assert_eq!(lines.get_line(3), Some("    x".to_string()));
    assert_eq!(lines.get_line(4), Some("end".to_string()));
    assert_eq!(lines.get_line(5), None);
}

#[test]
fn line_of_white_space_is_empty() {
    let lines = Lines::load(" \t \n\n");
    assert_eq!(lines.get_line(1), Some(String::new()));
    assert_eq!(lines.get_line(2), Some(String::new()));
    assert_eq!(lines.get_line(3), None);
}

#[test]
fn empty_text_has_no_lines() {
    assert_eq!(Lines::load("").get_line(1), None);
    assert_eq!(Lines::empty().get_line(1), None);
    assert_eq!(Lines::empty().get_line(0), None);
}

#[test]
fn white_space_characters() {
    for c in ['\t', '\n', '\u{b}', '\u{c}', '\r', ' ', '\u{85}', '\u{a0}', '\u{1680}', '\u{2000}', '\u{200a}', '\u{2028}', '\u{2029}', '\u{202f}', '\u{205f}', '\u{3000}'] {
        assert!(char_is_whitespace(c));
        assert!(c.is_whitespace());
    }
    for c in ['a', '0', '_', '\u{200b}', '\u{feff}', '\u{8}', '\u{e}', '\u{1f}'] {
        assert!(!char_is_whitespace(c));
        assert!(!c.is_whitespace());
    }
}

#[test]
fn cache_holds_what_is_inserted() {
    let mut cache = FileLineCache::new();
    assert!(!cache.contains("src/main.rs"));
    assert_eq!(cache.get_line("src/main.rs", 1), None);
    cache.insert("src/main.rs", Some("fn main() {\n    pow(2, 3);\n}\n"));
    assert!(cache.contains("src/main.rs"));
    assert!(!cache.contains("src/lib.rs"));
    assert_eq!(cache.get_line("src/main.rs", 2), Some("    pow(2, 3);".to_string()));
    assert_eq!(cache.get_line("src/main.rs", 0), None);
    assert_eq!(cache.get_line("src/main.rs", 4), None);
    assert_eq!(cache.get_line("src/lib.rs", 1), None);
}

#[test]
fn cache_keeps_the_first_text_of_a_file() {
    let mut cache = FileLineCache::new();
    cache.insert("a.rs", Some("one\n"));
    cache.insert("b.rs", Some("two\n"));
    cache.insert("a.rs", Some("three\n"));
    assert_eq!(cache.get_line("a.rs", 1), Some("one".to_string()));
    assert_eq!(cache.get_line("b.rs", 1), Some("two".to_string()));
}

#[test]
fn file_that_could_not_be_read_has_no_lines() {
    let mut cache = FileLineCache::new();
    cache.insert("gone.rs", None);
    assert!(cache.contains("gone.rs"));
    assert_eq!(cache.get_line("gone.rs", 1), None);
    cache.insert("gone.rs", Some("late\n"));
    assert_eq!(cache.get_line("gone.rs", 1), None);
}

#[test]
fn lines_before_bytes_that_are_no_text_are_kept() {
    let bytes = b"one\ntwo\nthr\xffee\nfour\n";
    let valid = std::str::from_utf8(bytes).unwrap_err().valid_up_to();
    assert_eq!(valid, 11);
    assert_eq!(whole_lines_before(bytes, valid), 8);
    assert_eq!(&bytes[..8], b"one\ntwo\n");
    assert_eq!(whole_lines_before(bytes, 8), 8);
    assert_eq!(whole_lines_before(bytes, 7), 4);
    assert_eq!(whole_lines_before(bytes, 3), 0);
    assert_eq!(whole_lines_before(bytes, 0), 0);
    assert_eq!(whole_lines_before(b"", 0), 0);
    assert_eq!(whole_lines_before(b"\n\n", 2), 2);
}
