//! Decoding of the texture (`.tex`) and sprite (`.spr`) container formats:
//! little-endian field parsing, section extraction, Tegra block-linear
//! (de)swizzling and DDS header construction.

pub mod bytes;
pub mod dds;
pub mod error;
pub mod spr;
pub mod swizzle;
pub mod swizzle_laws;
pub mod tex;

use vstd::prelude::*;

verus! {

/// Result type used throughout the library.
pub type PitaResult<T> = Result<T, error::PitaError>;

} // verus!
