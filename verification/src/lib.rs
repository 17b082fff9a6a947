//! Verified PNG timestamp engine: reads a creation time out of PNG `tIME`
//! and text chunks, extracts timestamps from filenames, and splices a
//! checksummed `eXIf` chunk carrying `DateTimeOriginal` into a PNG byte
//! stream; JPEG and WebP containers are rewritten through an external
//! metadata-tag library.

pub mod codec;
pub mod datetime;
pub mod matcher;
pub mod pipeline;
pub mod png;
