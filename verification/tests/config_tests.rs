use reactor_files::config::desktop_icon;
use reactor_files::config::parse_config;

fn lines(xs: &[&str]) -> Vec<String> {
    xs.iter().map(|x| x.to_string()).collect()
}

#[test]
fn single_section_parses() {
    let secs = parse_config(&lines(&["[Thumbnailer Entry]", "Exec=prog %u %o", "MimeType=image/png;"]));
    assert_eq!(secs.len(), 1);
    assert_eq!(secs[0].name, "Thumbnailer Entry");
    assert_eq!(secs[0].get("Exec"), Some(&"prog %u %o".to_string()));
    assert_eq!(secs[0].get("MimeType"), Some(&"image/png;".to_string()));
}

#[test]
fn two_sections_in_order() {
    let secs = parse_config(&lines(&["[A]", "k=1", "[B]", "k=2"]));
    assert_eq!(secs.len(), 2);
    assert_eq!(secs[0].name, "A");
    assert_eq!(secs[1].name, "B");
    assert_eq!(secs[0].get("k"), Some(&"1".to_string()));
    assert_eq!(secs[1].get("k"), Some(&"2".to_string()));
}

#[test]
fn bad_header_yields_zero_sections() {
    // A non-header line where a header is expected empties the whole parse,
    // even though a valid section precedes it.
    let secs = parse_config(&lines(&["not a header", "k=v"]));
    assert_eq!(secs.len(), 0);
    let secs = parse_config(&lines(&["[A]", "k=v", "", "not a header", "x=y"]));
    assert_eq!(secs.len(), 0);
    let secs = parse_config(&lines(&["[]", "k=v"]));
    assert_eq!(secs.len(), 0);
}

#[test]
fn entry_without_eq_yields_zero_sections() {
    let secs = parse_config(&lines(&["[A]", "k=v", "junk line"]));
    assert_eq!(secs.len(), 0);
}

#[test]
fn blank_line_needs_following_header() {
    let secs = parse_config(&lines(&["[A]", "k=v", "", "[B]", "x=y"]));
    assert_eq!(secs.len(), 2);
    // A trailing blank line is a blank that no header follows.
    let secs = parse_config(&lines(&["[A]", "k=v", ""]));
    assert_eq!(secs.len(), 0);
    let secs = parse_config(&lines(&[""]));
    assert_eq!(secs.len(), 0);
}

#[test]
fn empty_input_has_no_sections() {
    let secs = parse_config(&lines(&[]));
    assert_eq!(secs.len(), 0);
}

#[test]
fn keys_and_values_are_trimmed() {
    let secs = parse_config(&lines(&["  [S]  ", "  key  =  value  "]));
    assert_eq!(secs.len(), 1);
    assert_eq!(secs[0].name, "S");
    assert_eq!(secs[0].get("key"), Some(&"value".to_string()));
}

#[test]
fn duplicate_key_last_wins() {
    let secs = parse_config(&lines(&["[S]", "a=1", "b=9", "a=2"]));
    assert_eq!(secs[0].get("a"), Some(&"2".to_string()));
    assert_eq!(secs[0].get("b"), Some(&"9".to_string()));
    assert_eq!(secs[0].get("c"), None);
}

#[test]
fn value_may_contain_eq() {
    let secs = parse_config(&lines(&["[S]", "a=x=y"]));
    assert_eq!(secs[0].get("a"), Some(&"x=y".to_string()));
}

#[test]
fn desktop_entry_icon_is_read() {
    let found = desktop_icon(&lines(&["[Desktop Entry]", "Name=Editor", "Icon=editor-icon"]));
    assert_eq!(found, Some("editor-icon".to_string()));
    let sectionless = desktop_icon(&lines(&["[Other]", "Icon=nope"]));
    assert_eq!(sectionless, None);
    let first_with_icon = desktop_icon(&lines(&[
        "[Desktop Entry]",
        "Name=NoIcon",
        "[Desktop Entry]",
        "Icon=second",
    ]));
    assert_eq!(first_with_icon, Some("second".to_string()));
}
