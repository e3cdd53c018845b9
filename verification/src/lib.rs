//! Bordered text panels for character-cell terminals.
//!
//! A panel is laid out once from a title and a body text: the body is split at
//! its spaces and packed greedily into lines of a fixed width. A laid-out
//! panel is rendered as a list of placements, each a text and the absolute
//! cell at which it starts; later placements paint over earlier ones.
//!
//! - [`words`] splits a text at its spaces, and [`wrap`] packs the words into
//!   lines.
//! - [`panel`] is the mathematical model of a panel and of its layout, and
//!   [`textbox`] the panel itself.
//! - [`render`] lists the placements that draw a panel, [`picture`] says what
//!   they leave on the screen, and [`ansi`] encodes them for a terminal.
//! - [`rewrap`] shows when wrapping the wrapped lines again changes nothing.
//!
//! All extents are `u8`: a panel is at most 255 cells wide and 255 cells high,
//! and its anchor lies within the first 255 columns and rows. Lengths are
//! counted in characters, each taken to fill one cell.

pub mod ansi;
pub mod border;
pub mod error;
pub mod panel;
pub mod picture;
pub mod render;
pub mod rewrap;
pub mod textbox;
pub mod wrap;
pub mod words;

pub use crate::ansi::encode;
pub use crate::border::{BorderStyle, Glyphs};
pub use crate::error::LayoutError;
pub use crate::picture::glyph_at;
pub use crate::render::Placement;
pub use crate::textbox::TextBox;
pub use crate::words::split_words;
pub use crate::wrap::wrap_words;
