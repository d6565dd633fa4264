//! Renders recorded terminal sessions (asciicast v2) as animated SVG
//! documents.
//!
//! The pipeline is: cast text -> header + events -> terminal emulation ->
//! timed frames -> SVG bytes.  Times and durations are carried as integer
//! microseconds, pixel lengths as integer hundredths of a pixel.

pub mod cast;
pub mod cell;
pub mod config;
pub mod color;
pub mod driver;
pub mod filter;
pub mod grid;
pub mod input;
pub mod json;
pub mod numfmt;
pub mod render;
pub mod theme;
pub mod timeline;
pub mod term;

pub use color::Rgb;
