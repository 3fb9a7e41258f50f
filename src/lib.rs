//! Batch renaming of files by wildcard patterns.
//!
//! A `from` pattern such as `IMG_*.jpg` is split on `*` into literal
//! fragments; a file name is matched against them left to right, and the
//! text in front of each fragment becomes a numbered capture. A `to`
//! template such as `photo_$1.jpg` then receives the captures in place of
//! its `$n` tokens.

pub mod pattern;
pub mod rename;
pub mod template;
pub mod text;
