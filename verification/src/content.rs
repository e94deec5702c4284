//! Per-file content resolution: the resolved media type and optional
//! thumbnail, the precedence between the external thumbnailer and the
//! embedded decoder, and the shared cell a background task writes the
//! result into while the caller polls it.
use vstd::prelude::*;

use crate::media::MediaType;
use crate::thumbs::downscale;
use crate::thumbs::downscaled_of;
use crate::thumbs::decode_of;
use crate::thumbs::decode_image;
use crate::thumbs::opt_thumb_view;
use crate::thumbs::Thumbnail;

verus! {

/// The resolved content of one file: an optional thumbnail scaled to the
/// requested bounding box, and an optional media type. Immutable once
/// produced.
#[derive(Debug, Clone)]
pub struct FileContentInfo {
    pub thumbnail: Option<Thumbnail>,
    pub mime: Option<MediaType>,
}

impl FileContentInfo {
    pub open spec fn wf(&self) -> bool {
        match self.thumbnail {
            Some(t) => t.wf(),
            None => true,
        }
    }
}

/// What the external invocation yields: nothing unless the process exited
/// successfully and produced readable output bytes, else their decode.
pub open spec fn external_result_spec(status_ok: bool, bytes: Option<Seq<u8>>) -> Option<
    (int, int, Seq<u8>),
> {
    if !status_ok {
        None
    } else {
        match bytes {
            Some(b) => decode_of(b),
            None => None,
        }
    }
}

/// Interpret the outcome of the external thumbnailer process: a non-zero
/// exit status or unreadable output is a recoverable "no thumbnail"; on
/// success the output bytes are decoded with the format guessed from them.
pub fn external_thumbnail(status_ok: bool, bytes: &Option<Vec<u8>>) -> (r: Option<Thumbnail>)
    ensures
        opt_thumb_view(r) == external_result_spec(status_ok, bytes.deep_view()),
        r matches Some(t) ==> t.wf(),
{
    if !status_ok {
        return None;
    }
    match bytes {
        Some(b) => {
            proof {
                assert(b.deep_view() =~= b@);
            }
            decode_image(b)
        },
        None => None,
    }
}

/// The thumbnail of a composed result: the external raster when there is
/// one, else the embedded one, downscaled to fit the `size`-square bounding
/// box; a degenerate raster with a zero dimension is dropped rather than
/// resized.
pub open spec fn compose_thumb_spec(
    external: Option<(int, int, Seq<u8>)>,
    embedded: Option<(int, int, Seq<u8>)>,
    size: int,
) -> Option<(int, int, Seq<u8>)> {
    let chosen = if external is Some {
        external
    } else {
        embedded
    };
    match chosen {
        None => None,
        Some(t) => if t.0 > 0 && t.1 > 0 {
            Some(downscaled_of(t.0, t.1, t.2, size))
        } else {
            None
        },
    }
}

/// Compose the resolved content of one file from the resolved media type
/// and the two thumbnail attempts: the external result wins when present,
/// the embedded result is used otherwise, and the chosen raster is resized
/// to fit within the `size × size` bounding box, aspect ratio preserved.
pub fn compose_content(
    mime: Option<MediaType>,
    external: Option<Thumbnail>,
    embedded: Option<Thumbnail>,
    size: u32,
) -> (r: FileContentInfo)
    requires
        external matches Some(t) ==> t.wf(),
        embedded matches Some(t) ==> t.wf(),
    ensures
        r.mime == mime,
        opt_thumb_view(r.thumbnail) == compose_thumb_spec(
            opt_thumb_view(external),
            opt_thumb_view(embedded),
            size as int,
        ),
        r.wf(),
        size >= 1 ==> (r.thumbnail matches Some(t) ==> 1 <= t.width <= size && 1 <= t.height
            <= size),
{
    let chosen = if external.is_some() {
        external
    } else {
        embedded
    };
    let thumbnail = match chosen {
        None => None,
        Some(t) => {
            if t.width > 0 && t.height > 0 {
                Some(downscale(&t, size))
            } else {
                None
            }
        },
    };
    FileContentInfo { thumbnail, mime }
}

/// Resolution precedence: when the external invocation produced a raster it
/// wins, whatever the embedded decoder produced; the embedded raster is
/// used exactly when the external attempt yielded nothing.
pub proof fn lemma_external_precedence(
    external: Option<(int, int, Seq<u8>)>,
    embedded: Option<(int, int, Seq<u8>)>,
    size: int,
)
    ensures
        external is Some ==> compose_thumb_spec(external, embedded, size) == compose_thumb_spec(
            external,
            None,
            size,
        ),
        external is None ==> compose_thumb_spec(external, embedded, size) == compose_thumb_spec(
            embedded,
            None,
            size,
        ),
{
}

/// The shared, lock-protected cell that rendezvous a background resolution
/// with the polling reader: empty until the single writer stores the final
/// value, and a reader before that observes "not yet resolved", never a
/// partial result.
#[verifier::external_body]
pub struct ContentCell {
    cell: std::sync::Arc<parking_lot::Mutex<Option<FileContentInfo>>>,
}

impl ContentCell {
    /// Relies on `parking_lot::Mutex`: a fresh cell holding no value yet.
    #[verifier::external_body]
    pub fn new() -> ContentCell {
        ContentCell { cell: std::sync::Arc::new(parking_lot::Mutex::new(None)) }
    }

    /// Another handle to the same cell, for the background task.
    #[verifier::external_body]
    pub fn handle(&self) -> ContentCell {
        ContentCell { cell: std::sync::Arc::clone(&self.cell) }
    }

    /// Relies on `parking_lot::Mutex::lock`: store the resolved value,
    /// waiting for the lock. The cell then holds it for every later read.
    #[verifier::external_body]
    pub fn set(&self, value: FileContentInfo) {
        self.cell.lock().replace(value);
    }

    /// Relies on `parking_lot::Mutex::lock`: read the current value without
    /// blocking on the writer beyond the lock; `None` means not yet
    /// resolved. The value depends on what has been stored, so nothing more
    /// is promised of it.
    #[verifier::external_body]
    pub fn get(&self) -> Option<FileContentInfo> {
        self.cell.lock().clone()
    }
}

} // verus!
