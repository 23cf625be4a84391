//! Geoid undulation on the EGM96 fifteen-minute grid: a dense grid of
//! fixed-point height samples, its compact binary form, a strict reader for
//! the fixed-layout text distribution, and the choice of the samples that a
//! query blends.

pub mod ascii;
pub mod bytes;
pub mod codec;
pub mod compressed;
pub mod error;
pub mod grid;
pub mod number;
pub mod text;
