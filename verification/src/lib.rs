//! A directory tree renderer.
//!
//! The crate turns directory listings into the lines of an indented,
//! glyph-decorated tree. It decides which entries take part, in what order
//! they appear, how each line is prefixed and how sizes are written. Reading
//! directories and writing lines is left to the caller, who drives the walk
//! one step at a time:
//!
//! 1. make an [`Aldar`], configure it, and call [`Aldar::run`];
//! 2. call [`Aldar::next_step`] until it answers [`Step::Done`]: write each
//!    [`Step::Line`], and answer each [`Step::List`] by reading the directory
//!    and handing its entries, as [`FileEntry`] values, to
//!    [`Aldar::show_dir`].
//!
//! The walk goes through the tree depth first and keeps one line per entry.
//! A directory that cannot be read is shown without entries, and the walk
//! goes on with what follows it.

pub mod text;
pub mod size;
pub mod glyphs;
pub mod fsutil;
pub mod pattern;
pub mod paint;
pub mod order;
pub mod state;
pub mod walk;
pub mod aldar;

pub use crate::aldar::{Aldar, AldarError, Step};
pub use crate::fsutil::{AldarExt, FileEntry, LpBinaryType};
pub use crate::pattern::PatternSet;
pub use crate::glyphs::{ascii_glyphset, unicode_glyphset, GlyphSet, Glyphs};
