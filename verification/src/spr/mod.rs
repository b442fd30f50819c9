//! The sprite (`.spr`) container: a header of fourteen 32-bit fields,
//! fourteen (start, end) byte ranges, and the sections those ranges cut out
//! of the file.
pub mod decoder;
pub mod header;
pub mod pair;
pub mod section;
