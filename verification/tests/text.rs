use dscribe::{
    chars_of, is_delimiter_line, is_white_space_char, render_lines, split_lines, string_of_chars,
};
use std::io::BufRead;

fn std_lines(text: &str) -> Vec<String> {
    std::io::Cursor::new(text.as_bytes()).lines().map(|l| l.unwrap()).collect()
}

fn strings(lines: &[&str]) -> Vec<String> {
    lines.iter().map(|s| s.to_string()).collect()
}

#[test]
fn white_space_matches_std_for_every_char() {
    for u in 0u32..=0x10FFFF {
        if let Some(c) = char::from_u32(u) {
            assert_eq!(is_white_space_char(c), c.is_whitespace(), "char {:#x}", u);
        }
    }
}

#[test]
fn delimiter_lines() {
    assert!(is_delimiter_line("---"));
    assert!(is_delimiter_line("---   "));
    assert!(is_delimiter_line("---\t\u{3000}"));
    assert!(!is_delimiter_line(" ---"));
    assert!(!is_delimiter_line("----"));
    assert!(!is_delimiter_line("--"));
    assert!(!is_delimiter_line(""));
    assert!(!is_delimiter_line("--- x"));
}

#[test]
fn delimiter_matches_trim_end() {
    let cases = ["---", "--- ", "---\r", " ---", "---x", "-- -", "---\u{a0}", "---\u{200b}", "", "-"];
    for c in cases.iter() {
        assert_eq!(is_delimiter_line(c), c.trim_end() == "---", "{:?}", c);
    }
}

#[test]
fn split_lines_matches_std_reader() {
    let cases = [
        "", "\n", "a", "a\n", "a\nb", "a\nb\n", "a\r\nb\r\n", "a\r", "a\r\r\n", "\n\n", "\r\n",
        "x\n\ny\n", "---\ntitle: t\n---\nbody\n", "é\u{1F600}\nü",
    ];
    for c in cases.iter() {
        assert_eq!(split_lines(c), std_lines(c), "{:?}", c);
    }
}

#[test]
fn render_lines_ends_each_line() {
    assert_eq!(render_lines(&strings(&["a", "b"])), "a\nb\n");
    assert_eq!(render_lines(&Vec::new()), "");
    assert_eq!(render_lines(&strings(&[""])), "\n");
}

#[test]
fn lines_round_trip_through_a_file_text() {
    let lines = strings(&["title: x", "", "tags: [a, b]", " spaced "]);
    assert_eq!(split_lines(&render_lines(&lines)), lines);
}

#[test]
fn line_ending_in_carriage_return_does_not_round_trip() {
    let lines = strings(&["a\r"]);
    assert_eq!(split_lines(&render_lines(&lines)), strings(&["a"]));
}

#[test]
fn chars_and_substrings() {
    let v = chars_of("héllo");
    assert_eq!(v, vec!['h', 'é', 'l', 'l', 'o']);
    assert_eq!(string_of_chars(&v, 1, 4), "éll");
    assert_eq!(string_of_chars(&v, 2, 2), "");
}
