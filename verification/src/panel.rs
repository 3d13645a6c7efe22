//! Dimensions of the panel and of the areas on it.

use vstd::prelude::*;

verus! {

/// Width of the panel in pixels.
pub const WIDTH: u16 = 160;

/// Height of the panel in pixels.
pub const HEIGHT: u16 = 80;

/// Pixels of a whole frame.
pub const PIXELS: usize = 12_800;

/// Height of the header band, one line of the header font.
pub const HEADER_H: i32 = 15;

/// First row of the divider bar between the header band and the page area.
pub const DIVIDER_Y: i32 = 16;

/// Height of the divider bar.
pub const DIVIDER_H: u32 = 2;

/// First row of the page area, one row below the divider.
pub const PAGE_TOP: i32 = 19;

/// Height of the page area.
pub const PAGE_HEIGHT: u32 = 61;

} // verus!
