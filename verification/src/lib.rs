//! Extraction of RGB color codes from arbitrary text.
//!
//! The scanner finds every maximal, word-bounded token that is a 6-digit or
//! 3-digit hexadecimal color code (optionally prefixed by `#`), decodes each
//! into a [`color::Color`], and returns the distinct colors found.

pub mod color;
pub mod laws;
pub mod scan;

pub use color::Color;
pub use scan::find_matches;
