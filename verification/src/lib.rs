//! Content-resolution core of a small file manager: MIME lookup, the
//! freedesktop-style thumbnailer registry, external thumbnailer invocation
//! planning, embedded image decoding, per-file content resolution, directory
//! ordering, and best-effort path amendment.
pub mod amend;
pub mod config;
pub mod content;
pub mod directory;
pub mod invoke;
pub mod media;
pub mod registry;
pub mod text;
pub mod thumbs;

