//! Thumbnails as fixed-format RGBA rasters, the trusted image decoding and
//! resizing calls, and the embedded generator's fixed allow-list of raster
//! formats decoded in-process by the format the extension implies.
use vstd::prelude::*;
use vstd::string::*;

use crate::media::ext_spec;
use crate::media::extension_of;
use crate::text::str_eq;

verus! {

/// A decoded raster image with alpha: row-major RGBA, four bytes per pixel.
#[derive(Debug, Clone)]
pub struct Thumbnail {
    pub width: u32,
    pub height: u32,
    pub data: Vec<u8>,
}

impl Thumbnail {
    /// The pixel buffer holds exactly four bytes per pixel.
    pub open spec fn wf(&self) -> bool {
        self.data@.len() == 4 * (self.width as nat) * (self.height as nat)
    }

    /// The triple a thumbnail denotes: width, height and pixel bytes.
    pub open spec fn view_tuple(&self) -> (int, int, Seq<u8>) {
        (self.width as int, self.height as int, self.data@)
    }
}

/// The width, height and RGBA bytes of an optional thumbnail.
pub open spec fn opt_thumb_view(t: Option<Thumbnail>) -> Option<(int, int, Seq<u8>)> {
    match t {
        Some(t) => Some(t.view_tuple()),
        None => None,
    }
}

/// What decoding bytes of unknown format returns: a function of the bytes
/// alone, `None` on undecodable input.
pub uninterp spec fn decode_of(bytes: Seq<u8>) -> Option<(int, int, Seq<u8>)>;

/// Relies on `image::load_from_memory` (format guessed from the bytes) and
/// `DynamicImage::into_rgba8`: decoding is a function of the bytes alone,
/// and the RGBA buffer holds four bytes per pixel.
#[verifier::external_body]
pub fn decode_image(bytes: &Vec<u8>) -> (r: Option<Thumbnail>)
    ensures
        opt_thumb_view(r) == decode_of(bytes@),
        r matches Some(t) ==> t.wf(),
{
    match image::load_from_memory(bytes.as_slice()) {
        Ok(img) => {
            let rgba = img.into_rgba8();
            Some(Thumbnail { width: rgba.width(), height: rgba.height(), data: rgba.into_raw() })
        },
        Err(_) => None,
    }
}

/// The raster formats the embedded generator decodes in-process.
#[derive(Clone, Copy, Debug, PartialEq, Eq, Structural)]
pub enum ImageKind {
    Png,
    Jpeg,
    Gif,
    Webp,
    Tiff,
    Pnm,
    Tga,
    Dds,
    Bmp,
    Ico,
    Farbfeld,
}

impl ImageKind {
    /// A small numeric tag for each format, used to key the trusted
    /// format-directed decode.
    pub open spec fn code_spec(&self) -> u8 {
        match self {
            ImageKind::Png => 0,
            ImageKind::Jpeg => 1,
            ImageKind::Gif => 2,
            ImageKind::Webp => 3,
            ImageKind::Tiff => 4,
            ImageKind::Pnm => 5,
            ImageKind::Tga => 6,
            ImageKind::Dds => 7,
            ImageKind::Bmp => 8,
            ImageKind::Ico => 9,
            ImageKind::Farbfeld => 10,
        }
    }

    pub fn code(&self) -> (r: u8)
        ensures
            r == self.code_spec(),
    {
        match self {
            ImageKind::Png => 0,
            ImageKind::Jpeg => 1,
            ImageKind::Gif => 2,
            ImageKind::Webp => 3,
            ImageKind::Tiff => 4,
            ImageKind::Pnm => 5,
            ImageKind::Tga => 6,
            ImageKind::Dds => 7,
            ImageKind::Bmp => 8,
            ImageKind::Ico => 9,
            ImageKind::Farbfeld => 10,
        }
    }
}

/// What decoding bytes as the format tagged `code` returns: a function of
/// the tag and the bytes alone.
pub uninterp spec fn decode_kind_of(code: int, bytes: Seq<u8>) -> Option<(int, int, Seq<u8>)>;

/// Relies on `image::load_from_memory_with_format` and
/// `DynamicImage::into_rgba8`: decoding with a fixed format is a function
/// of the format and the bytes alone; a format/content mismatch is a decode
/// error, never a panic.
#[verifier::external_body]
fn decode_image_as(bytes: &Vec<u8>, code: u8) -> (r: Option<Thumbnail>)
    requires
        code <= 10,
    ensures
        opt_thumb_view(r) == decode_kind_of(code as int, bytes@),
        r matches Some(t) ==> t.wf(),
{
    let fmt = match code {
        0 => image::ImageFormat::Png, 1 => image::ImageFormat::Jpeg,
        2 => image::ImageFormat::Gif, 3 => image::ImageFormat::WebP,
        4 => image::ImageFormat::Tiff, 5 => image::ImageFormat::Pnm,
        6 => image::ImageFormat::Tga, 7 => image::ImageFormat::Dds,
        8 => image::ImageFormat::Bmp, 9 => image::ImageFormat::Ico,
        _ => image::ImageFormat::Farbfeld,
    };
    match image::load_from_memory_with_format(bytes.as_slice(), fmt) {
        Ok(img) => {
            let rgba = img.into_rgba8();
            Some(Thumbnail { width: rgba.width(), height: rgba.height(), data: rgba.into_raw() })
        },
        Err(_) => None,
    }
}

/// The format the embedded generator uses for an extension, if any: the
/// fixed allow-list, matched exactly as the extension appears in the name.
pub open spec fn embedded_kind_spec(ext: Seq<char>) -> Option<ImageKind> {
    if ext == "png"@ {
        Some(ImageKind::Png)
    } else if ext == "jpg"@ || ext == "jpeg"@ {
        Some(ImageKind::Jpeg)
    } else if ext == "gif"@ {
        Some(ImageKind::Gif)
    } else if ext == "webp"@ {
        Some(ImageKind::Webp)
    } else if ext == "tiff"@ || ext == "tif"@ {
        Some(ImageKind::Tiff)
    } else if ext == "pnm"@ || ext == "pbm"@ || ext == "pgm"@ || ext == "ppm"@ || ext == "pam"@ {
        Some(ImageKind::Pnm)
    } else if ext == "tga"@ {
        Some(ImageKind::Tga)
    } else if ext == "dds"@ {
        Some(ImageKind::Dds)
    } else if ext == "bmp"@ {
        Some(ImageKind::Bmp)
    } else if ext == "ico"@ {
        Some(ImageKind::Ico)
    } else if ext == "ff"@ {
        Some(ImageKind::Farbfeld)
    } else {
        None
    }
}

/// The embedded format for an extension, per the fixed allow-list.
pub fn embedded_kind(ext: &str) -> (r: Option<ImageKind>)
    ensures
        r == embedded_kind_spec(ext@),
{
    if str_eq(ext, "png") {
        Some(ImageKind::Png)
    } else if str_eq(ext, "jpg") || str_eq(ext, "jpeg") {
        Some(ImageKind::Jpeg)
    } else if str_eq(ext, "gif") {
        Some(ImageKind::Gif)
    } else if str_eq(ext, "webp") {
        Some(ImageKind::Webp)
    } else if str_eq(ext, "tiff") || str_eq(ext, "tif") {
        Some(ImageKind::Tiff)
    } else if str_eq(ext, "pnm") || str_eq(ext, "pbm") || str_eq(ext, "pgm") || str_eq(
        ext,
        "ppm",
    ) || str_eq(ext, "pam") {
        Some(ImageKind::Pnm)
    } else if str_eq(ext, "tga") {
        Some(ImageKind::Tga)
    } else if str_eq(ext, "dds") {
        Some(ImageKind::Dds)
    } else if str_eq(ext, "bmp") {
        Some(ImageKind::Bmp)
    } else if str_eq(ext, "ico") {
        Some(ImageKind::Ico)
    } else if str_eq(ext, "ff") {
        Some(ImageKind::Farbfeld)
    } else {
        None
    }
}

/// What the embedded generator yields for a file name and its bytes: `None`
/// when the extension is absent or not in the allow-list ("not applicable")
/// and on decode failure; otherwise the decoded raster.
pub open spec fn embedded_decode_spec(name: Seq<char>, bytes: Seq<u8>) -> Option<
    (int, int, Seq<u8>),
> {
    match ext_spec(name) {
        None => None,
        Some(e) => match embedded_kind_spec(e) {
            None => None,
            Some(k) => decode_kind_of(k.code_spec() as int, bytes),
        },
    }
}

/// Decode `bytes` in-process by the format the extension of `name` implies;
/// an unrecognized extension yields nothing, and a format/content mismatch
/// is a decode failure, not a crash.
pub fn embedded_thumbnail(name: &str, bytes: &Vec<u8>) -> (r: Option<Thumbnail>)
    ensures
        opt_thumb_view(r) == embedded_decode_spec(name@, bytes@),
        r matches Some(t) ==> t.wf(),
{
    let ext = match extension_of(name) {
        Some(e) => e,
        None => {
            return None;
        },
    };
    let kind = match embedded_kind(ext.as_str()) {
        Some(k) => k,
        None => {
            return None;
        },
    };
    decode_image_as(bytes, kind.code())
}

/// What resizing to fit the `size`-square bounding box returns: a function
/// of the raster and the target size alone.
pub uninterp spec fn downscaled_of(w: int, h: int, data: Seq<u8>, size: int) -> (
    int,
    int,
    Seq<u8>,
);

/// Relies on `DynamicImage::thumbnail` and `into_rgba8`: a deterministic
/// uniform resize that fits the image within the `size`-square bounding box
/// preserving its aspect ratio (the larger scaled dimension equals `size`),
/// returned as RGBA with four bytes per pixel; both result dimensions lie
/// between one and `size`.
#[verifier::external_body]
pub fn downscale(t: &Thumbnail, size: u32) -> (r: Thumbnail)
    requires
        t.wf(),
        t.width > 0,
        t.height > 0,
    ensures
        r.view_tuple() == downscaled_of(t.width as int, t.height as int, t.data@, size as int),
        r.wf(),
        size >= 1 ==> 1 <= r.width <= size && 1 <= r.height <= size,
{
    let buf = image::RgbaImage::from_raw(t.width, t.height, t.data.clone()).unwrap();
    let img = image::DynamicImage::ImageRgba8(buf).thumbnail(size, size).into_rgba8();
    Thumbnail { width: img.width(), height: img.height(), data: img.into_raw() }
}

} // verus!
