//! Colors, as RGB565 pixel values.

use embedded_graphics::pixelcolor::{IntoStorage, Rgb565};
use vstd::prelude::*;

verus! {

pub const BLACK: u16 = 0x0000;

pub const WHITE: u16 = 0xffff;

pub const RED: u16 = 0xf800;

pub const GREEN: u16 = 0x07e0;

pub const BLUE: u16 = 0x001f;

pub const YELLOW: u16 = 0xffe0;

/// Full red, half green: (31, 30, 0).
pub const ORANGE: u16 = 0xfbc0;

/// Middle gray: (16, 32, 16).
pub const GRAY: u16 = 0x8410;

/// Lighter gray for secondary figures: (20, 40, 20).
pub const DIM: u16 = 0xa514;

/// Light blue of received data and disk operations: (10, 50, 31).
pub const LIGHT_BLUE: u16 = 0x565f;

/// Magenta of sent data: (28, 16, 24).
pub const MAGENTA: u16 = 0xe218;

/// The pixel value of a color with five bits of red, six of green and five
/// of blue.
pub open spec fn rgb(r: int, g: int, b: int) -> u16 {
    (r % 32 * 2048 + g % 64 * 32 + b % 32) as u16
}

/// Calls `Rgb565::new` and `into_storage`: the channels, each cut to its
/// bits, side by side from red at the top to blue at the bottom.
#[verifier::external_body]
pub(crate) fn rgb565(r: u8, g: u8, b: u8) -> (c: u16)
    ensures
        c == rgb(r as int, g as int, b as int),
{
    Rgb565::new(r, g, b).into_storage()
}

/// The load gradient: green at idle, through yellow at 50%, to red when
/// pinned; above 100% like 100%.
pub open spec fn load_color(percent: int) -> u16 {
    let p = if percent < 100 {
        percent
    } else {
        100
    };
    if p <= 50 {
        rgb(31 * p / 50, 63, 0)
    } else {
        rgb(31, 63 * (100 - p) / 50, 0)
    }
}

/// Color of a load sample: green at idle, through yellow at 50%, to red when
/// pinned.
pub fn usage_color(percent: u8) -> (c: u16)
    ensures
        c == load_color(percent as int),
{
    let p: u16 = if percent < 100 {
        percent as u16
    } else {
        100
    };
    if p <= 50 {
        rgb565((31 * p / 50) as u8, 63, 0)
    } else {
        rgb565(31, (63 * (100 - p) / 50) as u8, 0)
    }
}

/// Status color of a temperature: green below 50, yellow below 65, orange
/// below 75, red from there.
pub open spec fn heat_color(celsius: int) -> u16 {
    if celsius < 50 {
        GREEN
    } else if celsius < 65 {
        YELLOW
    } else if celsius < 75 {
        ORANGE
    } else {
        RED
    }
}

/// Status color of a temperature: cool green, warm yellow, hot orange,
/// too-hot red.
pub fn temp_color(celsius: u8) -> (c: u16)
    ensures
        c == heat_color(celsius as int),
{
    if celsius < 50 {
        GREEN
    } else if celsius < 65 {
        YELLOW
    } else if celsius < 75 {
        ORANGE
    } else {
        RED
    }
}

} // verus!
