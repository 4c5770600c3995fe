use dscribe::{replace_newlines, MultiLineItem};

#[test]
fn item_matches_format_and_replace() {
    let item = MultiLineItem::new("notes/a.md".to_string(), "line 1\nline 2\n".to_string());
    let body = format!("{}:\n{}", "notes/a.md", "line 1\nline 2\n");
    assert_eq!(item.body, body);
    assert_eq!(item.oneline, body.replace('\n', "  "));
    assert_eq!(item.oneline, "notes/a.md:  line 1  line 2  ");
    assert_eq!(item.file_name, "notes/a.md");
}

#[test]
fn replace_newlines_cases() {
    assert_eq!(replace_newlines(""), "");
    assert_eq!(replace_newlines("\n\n"), "    ");
    assert_eq!(replace_newlines("a\r\nb"), "a\r  b");
}
