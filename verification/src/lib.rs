//! Ephemeral text overlays for layer-shell compositors.
//!
//! The library holds the parts of the overlay that can be stated exactly:
//! how a placement is turned into an anchor mask and edge margins, how big
//! the window for a list of text lines is, how glyph coverage is blended
//! into a pixel canvas, and how a surface reacts to the events its
//! compositor sends. Talking to the compositor and rasterising fonts is
//! left to the program built around it.

pub mod compositor;
pub mod layout;
pub mod parser;
pub mod pixel;
pub mod placement;
pub mod registry;
pub mod surface;
