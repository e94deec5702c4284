use reactor_files::amend::amend_path;
use reactor_files::amend::match_segment;
use reactor_files::amend::resolve_segment;
use reactor_files::amend::FsModel;

fn p(xs: &[&str]) -> Vec<String> {
    xs.iter().map(|x| x.to_string()).collect()
}

fn fs(paths: &[&[&str]]) -> FsModel {
    FsModel { paths: paths.iter().map(|q| p(q)).collect() }
}

#[test]
fn amend_is_identity_on_existing_path() {
    let model = fs(&[&["home"], &["home", "docs"]]);
    let path = p(&["home", "docs"]);
    assert_eq!(amend_path(&model, &path), Some(path.clone()));
    let root = p(&["home"]);
    assert_eq!(amend_path(&model, &root), Some(root.clone()));
}

#[test]
fn amend_resolves_case_only_mismatch() {
    let model = fs(&[&["home"], &["home", "Photos"]]);
    let path = p(&["home", "photos"]);
    assert_eq!(amend_path(&model, &path), Some(p(&["home", "Photos"])));
}

#[test]
fn amend_resolves_several_missing_segments() {
    let model = fs(&[&["home"], &["home", "Photos"], &["home", "Photos", "Summer"]]);
    let path = p(&["home", "photos", "SUMMER"]);
    assert_eq!(amend_path(&model, &path), Some(p(&["home", "Photos", "Summer"])));
}

#[test]
fn amend_fails_without_case_insensitive_match() {
    let model = fs(&[&["home"], &["home", "Photos"]]);
    let path = p(&["home", "movies"]);
    assert_eq!(amend_path(&model, &path), None);
}

#[test]
fn amend_returns_original_when_no_ancestor_exists() {
    let model = fs(&[&["somewhere"]]);
    let path = p(&["x", "y"]);
    assert_eq!(amend_path(&model, &path), Some(path.clone()));
    let empty = fs(&[]);
    assert_eq!(amend_path(&empty, &path), Some(path.clone()));
}

#[test]
fn amend_fails_on_ambiguous_match() {
    // Two siblings match the missing segment case-insensitively: the
    // segment is not repaired, since only exactly one match is adopted.
    let model = fs(&[&["home"], &["home", "ABC"], &["home", "abc"]]);
    let path = p(&["home", "aBc"]);
    assert_eq!(amend_path(&model, &path), None);
}

#[test]
fn match_segment_requires_a_unique_match() {
    let children = p(&["Alpha", "BETA", "beta"]);
    assert_eq!(match_segment(&children, &"alpha".to_string()), Some("Alpha".to_string()));
    assert_eq!(match_segment(&children, &"Beta".to_string()), None);
    assert_eq!(match_segment(&children, &"gamma".to_string()), None);
}

#[test]
fn resolve_segment_keeps_existing_candidates() {
    let children = p(&["Photos", "photos"]);
    // An existing candidate is kept as typed, whatever the siblings hold.
    assert_eq!(
        resolve_segment(&"photos".to_string(), true, &children),
        Some("photos".to_string())
    );
    // A missing one falls back to the unique-match rule.
    assert_eq!(resolve_segment(&"photos".to_string(), false, &children), None);
    let one = p(&["Photos"]);
    assert_eq!(
        resolve_segment(&"photos".to_string(), false, &one),
        Some("Photos".to_string())
    );
}

#[test]
fn amend_adopts_exact_casing_only_for_missing_segments() {
    // The existing prefix is kept as typed; only missing segments are repaired.
    let model = fs(&[&["Work"], &["Work", "Docs"]]);
    let path = p(&["Work", "docs"]);
    assert_eq!(amend_path(&model, &path), Some(p(&["Work", "Docs"])));
}
