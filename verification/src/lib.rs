//! A verified rendering core for code-screenshot images.
//!
//! The crate turns a sequence of syntax-highlighted source lines into one
//! RGBA pixel buffer: a text-layout engine positions styled runs of text, a
//! linear-time box-blur approximation softens the drop shadow, and a raster
//! compositor stacks background, highlight strips, line numbers, glyphs,
//! window chrome and shadow in a fixed order.  Syntax highlighting, font
//! discovery and file or clipboard output are external collaborators and sit
//! outside this crate.

pub mod blur;
pub mod canvas;
pub mod clipboard;
pub mod error;
pub mod font;
pub mod formatter;
pub mod imageproc;
pub mod scale;
pub mod svg;
pub mod utils;
