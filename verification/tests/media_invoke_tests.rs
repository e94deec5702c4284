use reactor_files::invoke::output_name;
use reactor_files::invoke::plan_invocation;
use reactor_files::invoke::substitute_args;
use reactor_files::media::extension_of;
use reactor_files::media::guess_media_type;
use reactor_files::media::parse_media_type;
use reactor_files::media::resolve_media_type;
use reactor_files::media::MediaType;
use reactor_files::registry::ThumbnailerRegistry;
use reactor_files::text::u32_to_dec;

fn lines(xs: &[&str]) -> Vec<String> {
    xs.iter().map(|x| x.to_string()).collect()
}

#[test]
fn extension_follows_the_last_dot() {
    assert_eq!(extension_of("archive.tar.gz"), Some("gz".to_string()));
    assert_eq!(extension_of("photo.png"), Some("png".to_string()));
    assert_eq!(extension_of(".bashrc"), None);
    assert_eq!(extension_of("noext"), None);
    assert_eq!(extension_of("dot."), Some("".to_string()));
}

#[test]
fn extension_guess_is_case_insensitive() {
    assert_eq!(guess_media_type("png").unwrap().essence, "image/png");
    assert_eq!(guess_media_type("PNG").unwrap().essence, "image/png");
    assert!(guess_media_type("").is_none());
    assert!(guess_media_type("no-such-extension-zzz").is_none());
}

#[test]
fn mime_parsing_yields_the_essence() {
    assert_eq!(parse_media_type("text/plain").unwrap().essence, "text/plain");
    assert_eq!(
        parse_media_type("text/plain; charset=utf-8").unwrap().essence,
        "text/plain"
    );
    assert!(parse_media_type("not a mime").is_none());
}

#[test]
fn media_type_splits_into_type_and_subtype() {
    let m = parse_media_type("image/svg+xml").unwrap();
    assert_eq!(m.top(), "image");
    assert_eq!(m.sub(), "svg+xml");
}

#[test]
fn resolution_prefers_the_extension_guess() {
    let r = resolve_media_type("photo.png", &Some("text/plain".to_string()));
    assert_eq!(r.unwrap().essence, "image/png");
}

#[test]
fn resolution_falls_back_to_sniffed_content() {
    let r = resolve_media_type("README", &Some("text/plain".to_string()));
    assert_eq!(r.unwrap().essence, "text/plain");
    assert!(resolve_media_type("README", &None).is_none());
}

#[test]
fn placeholders_are_substituted_exactly() {
    let template = lines(&["-s", "%s", "%u", "-o", "%o"]);
    let got = substitute_args(&template, "/a/b.png", "/tmp/out", 48);
    assert_eq!(got, lines(&["-s", "48", "/a/b.png", "-o", "/tmp/out"]));
}

#[test]
fn unused_paths_are_appended_in_order() {
    let template = lines(&["-q"]);
    let got = substitute_args(&template, "/a/b.png", "/tmp/out", 7);
    assert_eq!(got, lines(&["-q", "/a/b.png", "/tmp/out"]));
    let only_input = lines(&["%u"]);
    let got = substitute_args(&only_input, "/in", "/out", 1);
    assert_eq!(got, lines(&["/in", "/out"]));
}

#[test]
fn decimal_rendering_is_exact() {
    assert_eq!(u32_to_dec(0), "0");
    assert_eq!(u32_to_dec(7), "7");
    assert_eq!(u32_to_dec(48), "48");
    assert_eq!(u32_to_dec(1234567890), "1234567890");
    assert_eq!(u32_to_dec(u32::MAX), "4294967295");
}

#[test]
fn output_names_probe_in_sequence() {
    assert_eq!(output_name(0), "thumbnail_output0");
    assert_eq!(output_name(1), "thumbnail_output1");
    assert_eq!(output_name(123), "thumbnail_output123");
}

#[test]
fn invocation_is_planned_from_the_registry() {
    let file = lines(&[
        "[Thumbnailer Entry]",
        "Exec=thumbprog -s %s %u %o",
        "MimeType=image/png;image/gif",
    ]);
    let registry = ThumbnailerRegistry::build(&vec![file]);
    let mt = MediaType { essence: "image/png".to_string() };
    let (prog, args) = plan_invocation(&registry, &mt, "/a/b.png", "/tmp/t0", 48).unwrap();
    assert_eq!(prog, "thumbprog");
    assert_eq!(args, lines(&["-s", "48", "/a/b.png", "/tmp/t0"]));
    let other = MediaType { essence: "video/mp4".to_string() };
    assert!(plan_invocation(&registry, &other, "/a", "/b", 48).is_none());
}
