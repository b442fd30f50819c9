//! The texture (`.tex`) container: a zstd stream whose decompressed payload
//! is a block-linear BC7 surface followed by a 4096-byte footer.
pub mod decoder;
pub mod footer;
pub mod gby;
