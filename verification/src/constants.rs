//! Fixed measurements of the rendering surface and of the monospace glyphs
//! used by the layout pass.

use vstd::prelude::*;

verus! {

/// Width of the whole window in pixels.
pub const WINDOW_WIDTH: i64 = 600;

/// Height of the whole window in pixels.
pub const WINDOW_HEIGHT: i64 = 400;

/// Padding kept between the window edge and the content area.
pub const WINDOW_PADDING: i64 = 5;

/// Width of the area that content may occupy.
pub const CONTENT_AREA_WIDTH: i64 = WINDOW_WIDTH - WINDOW_PADDING * 2;

/// Width of one character at the base font size.
pub const CHAR_WIDTH: i64 = 8;

/// Height of one character at the base font size.
pub const CHAR_HEIGHT: i64 = 16;

/// Height of one line of text, glyph height plus leading.
pub const CHAR_HEIGHT_WITH_PADDING: i64 = CHAR_HEIGHT + 4;

} // verus!
