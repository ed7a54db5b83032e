//! A batch image-to-WebP conversion service core: collect uploaded fields,
//! decode and transcode each image, and pack the results into one in-memory
//! ZIP archive, failing the whole batch on the first error.
//!
//! Three design decisions to know about:
//! - Images are encoded as lossless WebP, so decoding an output yields the
//!   normalized input pixels exactly; the encoder's quality setting is a
//!   tunable, not part of the contracts.
//! - Two uploads whose names reduce to the same output stem would collide in
//!   the archive; such a batch is rejected with `ZipStartError` rather than
//!   writing duplicate entry names.
//! - A file name's stem is everything before its last dot (a lone leading dot
//!   marks no extension); path separators are ordinary characters, as
//!   multipart file names are plain names.
//! - Indexed-color images are an unsupported pixel layout and are rejected
//!   with `ConversionFailed` straight from their header: the decode library
//!   expands a palette without checking the pixel indices against its length,
//!   so a malformed indexed file must never reach it.

pub mod archive;
pub mod convert;
pub mod errors;
pub mod minify;
pub mod service;
