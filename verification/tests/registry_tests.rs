use reactor_files::media::MediaType;
use reactor_files::registry::ThumbnailerRegistry;

fn lines(xs: &[&str]) -> Vec<String> {
    xs.iter().map(|x| x.to_string()).collect()
}

fn png() -> MediaType {
    MediaType { essence: "image/png".to_string() }
}

#[test]
fn complete_registration_is_found() {
    let file = lines(&["[Thumbnailer Entry]", "Exec=prog %u", "MimeType=image/png;image/gif"]);
    let registry = ThumbnailerRegistry::build(&vec![file]);
    let cmd = registry.lookup(&png()).unwrap();
    assert_eq!(*cmd, lines(&["prog", "%u"]));
    let gif = MediaType { essence: "image/gif".to_string() };
    assert!(registry.lookup(&gif).is_some());
}

#[test]
fn missing_exec_contributes_nothing() {
    let file = lines(&["[Thumbnailer Entry]", "MimeType=image/png;"]);
    let registry = ThumbnailerRegistry::build(&vec![file]);
    assert!(registry.lookup(&png()).is_none());
}

#[test]
fn missing_mime_type_contributes_nothing() {
    let file = lines(&["[Thumbnailer Entry]", "Exec=prog %u"]);
    let registry = ThumbnailerRegistry::build(&vec![file]);
    assert!(registry.lookup(&png()).is_none());
}

#[test]
fn empty_exec_or_mime_type_contributes_nothing() {
    let a = lines(&["[Thumbnailer Entry]", "Exec=", "MimeType=image/png;"]);
    let b = lines(&["[Thumbnailer Entry]", "Exec=prog", "MimeType="]);
    let registry = ThumbnailerRegistry::build(&vec![a, b]);
    assert!(registry.lookup(&png()).is_none());
}

#[test]
fn other_sections_are_ignored() {
    let file = lines(&["[Desktop Entry]", "Exec=prog", "MimeType=image/png;"]);
    let registry = ThumbnailerRegistry::build(&vec![file]);
    assert!(registry.lookup(&png()).is_none());
}

#[test]
fn malformed_file_is_skipped_silently() {
    let bad = lines(&["garbage, not a header"]);
    let good = lines(&["[Thumbnailer Entry]", "Exec=prog %u", "MimeType=image/png;"]);
    let registry = ThumbnailerRegistry::build(&vec![bad, good]);
    assert!(registry.lookup(&png()).is_some());
}

#[test]
fn unparsable_mime_items_are_skipped() {
    let file = lines(&["[Thumbnailer Entry]", "Exec=prog", "MimeType=image/png;;not a mime"]);
    let registry = ThumbnailerRegistry::build(&vec![file]);
    assert!(registry.lookup(&png()).is_some());
}

#[test]
fn later_registration_wins() {
    let first = lines(&["[Thumbnailer Entry]", "Exec=oldprog %u", "MimeType=image/png;"]);
    let second = lines(&["[Thumbnailer Entry]", "Exec=newprog %u", "MimeType=image/png;"]);
    let registry = ThumbnailerRegistry::build(&vec![first, second]);
    let cmd = registry.lookup(&png()).unwrap();
    assert_eq!(cmd[0], "newprog");
}

#[test]
fn exec_is_tokenized_on_single_spaces() {
    let file = lines(&["[Thumbnailer Entry]", "Exec=prog  -x", "MimeType=image/png;"]);
    let registry = ThumbnailerRegistry::build(&vec![file]);
    let cmd = registry.lookup(&png()).unwrap();
    // A double space yields an empty token, as splitting on every single
    // space does.
    assert_eq!(*cmd, lines(&["prog", "", "-x"]));
}
