use reactor_files::content::compose_content;
use reactor_files::content::external_thumbnail;
use reactor_files::content::ContentCell;
use reactor_files::content::FileContentInfo;
use reactor_files::directory::Directory;
use reactor_files::directory::FileInfo;
use reactor_files::directory::FileKind;
use reactor_files::media::MediaType;
use reactor_files::thumbs::decode_image;
use reactor_files::thumbs::embedded_kind;
use reactor_files::thumbs::embedded_thumbnail;
use reactor_files::thumbs::ImageKind;
use reactor_files::thumbs::Thumbnail;

// A 2x2 RGBA PNG: left column red, right column green.
fn tiny_png() -> Vec<u8> {
    vec![
        137, 80, 78, 71, 13, 10, 26, 10, 0, 0, 0, 13, 73, 72, 68, 82, 0, 0, 0, 2, 0, 0, 0, 2, 8,
        6, 0, 0, 0, 114, 182, 13, 36, 0, 0, 0, 16, 73, 68, 65, 84, 120, 156, 99, 248, 207, 192,
        240, 31, 10, 33, 20, 0, 69, 204, 7, 249, 102, 203, 255, 57, 0, 0, 0, 0, 73, 69, 78, 68,
        174, 66, 96, 130,
    ]
}

fn uniform_thumb(r: u8, g: u8, b: u8) -> Thumbnail {
    let mut data = Vec::new();
    for _ in 0..4 {
        data.push(r);
        data.push(g);
        data.push(b);
        data.push(255);
    }
    Thumbnail { width: 2, height: 2, data }
}

#[test]
fn decoding_reads_the_actual_bytes() {
    let t = decode_image(&tiny_png()).unwrap();
    assert_eq!(t.width, 2);
    assert_eq!(t.height, 2);
    assert_eq!(t.data.len(), 16);
    // Top-left pixel is red, top-right is green.
    assert_eq!(&t.data[0..4], &[255, 0, 0, 255]);
    assert_eq!(&t.data[4..8], &[0, 255, 0, 255]);
    assert!(decode_image(&vec![1, 2, 3]).is_none());
}

#[test]
fn embedded_allow_list_is_fixed() {
    assert_eq!(embedded_kind("png"), Some(ImageKind::Png));
    assert_eq!(embedded_kind("jpeg"), Some(ImageKind::Jpeg));
    assert_eq!(embedded_kind("ff"), Some(ImageKind::Farbfeld));
    assert_eq!(embedded_kind("txt"), None);
    // The match is exact: an upper-case extension is not recognized.
    assert_eq!(embedded_kind("PNG"), None);
}

#[test]
fn embedded_decode_uses_the_extension_format() {
    let png = tiny_png();
    assert!(embedded_thumbnail("img.png", &png).is_some());
    // Unrecognized extension: not applicable.
    assert!(embedded_thumbnail("img.txt", &png).is_none());
    assert!(embedded_thumbnail("noext", &png).is_none());
    // Extension/content mismatch: a decode failure, not a crash.
    assert!(embedded_thumbnail("img.gif", &png).is_none());
}

#[test]
fn failed_process_yields_no_thumbnail() {
    let png = tiny_png();
    assert!(external_thumbnail(false, &Some(png.clone())).is_none());
    assert!(external_thumbnail(true, &None).is_none());
    assert!(external_thumbnail(true, &Some(png)).is_some());
}

#[test]
fn external_result_wins_over_embedded() {
    let red = uniform_thumb(255, 0, 0);
    let blue = uniform_thumb(0, 0, 255);
    let info = compose_content(None, Some(red), Some(blue), 8);
    let t = info.thumbnail.unwrap();
    assert_eq!((t.width, t.height), (8, 8));
    assert_eq!(&t.data[0..4], &[255, 0, 0, 255]);
}

#[test]
fn embedded_result_is_used_when_external_failed() {
    let blue = uniform_thumb(0, 0, 255);
    let info = compose_content(None, None, Some(blue), 8);
    let t = info.thumbnail.unwrap();
    assert_eq!((t.width, t.height), (8, 8));
    assert_eq!(&t.data[0..4], &[0, 0, 255, 255]);
    let none = compose_content(None, None, None, 8);
    assert!(none.thumbnail.is_none());
}

#[test]
fn composition_keeps_the_resolved_media_type() {
    let mt = MediaType { essence: "image/png".to_string() };
    let info = compose_content(Some(mt), None, None, 48);
    assert_eq!(info.mime.unwrap().essence, "image/png");
}

#[test]
fn downscaling_fits_the_bounding_box() {
    let t = decode_image(&tiny_png()).unwrap();
    let info = compose_content(None, Some(t), None, 48);
    let t = info.thumbnail.unwrap();
    assert_eq!((t.width, t.height), (48, 48));
    assert_eq!(t.data.len(), 48 * 48 * 4);
    // A non-square raster keeps its aspect ratio within the box.
    let tall = Thumbnail { width: 1, height: 4, data: vec![7; 16] };
    let info = compose_content(None, Some(tall), None, 8);
    let t = info.thumbnail.unwrap();
    assert!(1 <= t.width && t.width <= 8);
    assert_eq!(t.height, 8);
    // The smallest box still yields a raster within it.
    let wide = Thumbnail { width: 4, height: 2, data: vec![9; 32] };
    let info = compose_content(None, Some(wide), None, 1);
    let t = info.thumbnail.unwrap();
    assert!(1 <= t.width && t.width <= 1 && 1 <= t.height && t.height <= 1);
}

#[test]
fn cell_is_empty_until_set_and_stable_after() {
    let cell = ContentCell::new();
    assert!(cell.get().is_none());
    let handle = cell.handle();
    handle.set(FileContentInfo {
        thumbnail: None,
        mime: Some(MediaType { essence: "text/plain".to_string() }),
    });
    let first = cell.get().unwrap();
    assert_eq!(first.mime.unwrap().essence, "text/plain");
    // Reading does not consume the value.
    let again = cell.get().unwrap();
    assert_eq!(again.mime.unwrap().essence, "text/plain");
}

#[test]
fn cell_rendezvous_across_threads() {
    let cell = ContentCell::new();
    assert!(cell.get().is_none());
    let handle = cell.handle();
    rayon::scope(|s| {
        s.spawn(move |_| {
            handle.set(FileContentInfo {
                thumbnail: None,
                mime: Some(MediaType { essence: "image/gif".to_string() }),
            });
        });
    });
    // The scope guarantees the background task completed; the final value is
    // observed, whole, by every later read.
    assert_eq!(cell.get().unwrap().mime.unwrap().essence, "image/gif");
    assert_eq!(cell.get().unwrap().mime.unwrap().essence, "image/gif");
}

fn entry(name: &str, kind: FileKind) -> FileInfo {
    FileInfo {
        file_name: name.to_string(),
        file_type: kind,
        content_info: ContentCell::new(),
        extension_mime: None,
    }
}

#[test]
fn listing_sorts_directories_first_then_names() {
    let entries = vec![
        entry("b.txt", FileKind::File),
        entry("A", FileKind::Directory),
        entry("a.txt", FileKind::File),
    ];
    let dir = Directory::new("/tmp".to_string(), entries);
    let names: Vec<String> = dir.files().iter().map(|e| e.file_name.clone()).collect();
    assert_eq!(names, vec!["A".to_string(), "a.txt".to_string(), "b.txt".to_string()]);
    assert_eq!(dir.path(), "/tmp");
    assert_eq!(dir.len(), 3);
}

#[test]
fn hidden_entries_are_dropped() {
    let entries = vec![
        entry(".hidden", FileKind::File),
        entry("visible", FileKind::File),
        entry(".git", FileKind::Directory),
    ];
    let dir = Directory::new("/x".to_string(), entries);
    assert_eq!(dir.len(), 1);
    assert_eq!(dir.get(0).unwrap().file_name, "visible");
    assert!(dir.get(1).is_none());
}

#[test]
fn entry_media_type_prefers_the_extension() {
    let mut e = entry("a.png", FileKind::File);
    e.extension_mime = Some(MediaType { essence: "image/png".to_string() });
    let detected = Some(FileContentInfo {
        thumbnail: None,
        mime: Some(MediaType { essence: "text/plain".to_string() }),
    });
    assert_eq!(e.media_type(&detected).unwrap().essence, "image/png");
    let no_ext = entry("README", FileKind::File);
    assert_eq!(no_ext.media_type(&detected).unwrap().essence, "text/plain");
    assert!(no_ext.media_type(&None).is_none());
}
