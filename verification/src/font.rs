//! The fonts of the panel and what text looks like in them. The glyphs are
//! those of the embedded-graphics crate.

use embedded_graphics::framebuffer::Framebuffer;
use embedded_graphics::mono_font::{ascii, iso_8859_1, MonoTextStyle};
use embedded_graphics::pixelcolor::raw::{LittleEndian, RawU8};
use embedded_graphics::pixelcolor::Gray8;
use embedded_graphics::prelude::{Drawable, Point};
use embedded_graphics::text::{Baseline, Text};
use vstd::prelude::*;

use crate::panel::PIXELS;

verus! {

/// A monospaced font.
#[derive(Clone, Copy, PartialEq, Eq, Structural, Debug)]
pub enum Font {
    /// 4 by 6 pixels, ASCII.
    Tiny,
    /// 6 by 10 pixels, ASCII.
    Small,
    /// 9 by 15 pixels, ASCII.
    Medium,
    /// 10 by 20 pixels, ASCII.
    Large,
    /// 10 by 20 pixels, ISO 8859-1, which has the degree sign.
    LargeLatin,
}

impl Font {
    /// Width of a character cell.
    pub open spec fn width(self) -> nat {
        match self {
            Font::Tiny => 4,
            Font::Small => 6,
            Font::Medium => 9,
            Font::Large => 10,
            Font::LargeLatin => 10,
        }
    }

    /// Height of a character cell.
    pub open spec fn height(self) -> nat {
        match self {
            Font::Tiny => 6,
            Font::Small => 10,
            Font::Medium => 15,
            Font::Large => 20,
            Font::LargeLatin => 20,
        }
    }
}

/// Reads `MonoFont::character_size` of the font's `MonoFont` constant: the
/// width and height of a character cell.
#[verifier::external_body]
pub(crate) fn character_size(font: Font) -> (r: (u32, u32))
    ensures
        r.0 == font.width(),
        r.1 == font.height(),
{
    let mono = match font {
        Font::Tiny => &ascii::FONT_4X6,
        Font::Small => &ascii::FONT_6X10,
        Font::Medium => &ascii::FONT_9X15,
        Font::Large => &ascii::FONT_10X20,
        Font::LargeLatin => &iso_8859_1::FONT_10X20,
    };
    (mono.character_size.width, mono.character_size.height)
}

/// Reads `MonoFont::character_spacing` of the font's `MonoFont` constant: no
/// pixels between the cells, for every font here.
#[verifier::external_body]
pub(crate) fn character_spacing(font: Font) -> (r: u32)
    ensures
        r == 0,
{
    let mono = match font {
        Font::Tiny => &ascii::FONT_4X6,
        Font::Small => &ascii::FONT_6X10,
        Font::Medium => &ascii::FONT_9X15,
        Font::Large => &ascii::FONT_10X20,
        Font::LargeLatin => &iso_8859_1::FONT_10X20,
    };
    mono.character_spacing
}

/// What `Text::draw` leaves on an empty frame of 160 by 80 pixels when it
/// draws `text` in `font` with its top left corner at `(x, y)`: one byte per
/// pixel, row by row, zero where it drew nothing.
pub uninterp spec fn text_mask(font: Font, text: Seq<char>, x: int, y: int) -> Seq<u8>;

/// Whether the pixel `i` of a frame lies in the box of a line of `len`
/// characters at `(x, y)`.
pub open spec fn in_text_box(font: Font, len: nat, x: int, y: int, i: int) -> bool {
    &&& x <= i % 160 < x + len * font.width()
    &&& y <= i / 160 < y + font.height()
}

/// Whether text of `len` characters at `(x, y)` keeps all its coordinates,
/// also when every character is a line of its own, in 32 bits.
pub open spec fn text_fits(font: Font, len: nat, x: int, y: int) -> bool {
    &&& i32::MIN <= x
    &&& i32::MIN <= y
    &&& len * font.width() <= i32::MAX
    &&& x + len * font.width() <= i32::MAX
    &&& y + (len + 1) * font.height() <= i32::MAX
}

/// Draws text with `Text::draw`, in a `MonoTextStyle` with a transparent
/// background and with `Baseline::Top`, into a new
/// `embedded_graphics::framebuffer::Framebuffer` of the panel's size, and
/// hands out its bytes. The glyphs are not described here, only that they
/// depend on the arguments alone and that text without a line feed stays in
/// the box of its character cells.
#[verifier::external_body]
pub(crate) fn render_text(font: Font, text: &str, x: i32, y: i32) -> (mask: Vec<u8>)
    requires
        text_fits(font, text@.len(), x as int, y as int),
    ensures
        mask@ == text_mask(font, text@, x as int, y as int),
        mask@.len() == PIXELS,
        !text@.contains('\n') ==> forall|i: int|
            0 <= i < PIXELS && #[trigger] mask@[i] != 0 ==> in_text_box(
                font,
                text@.len(),
                x as int,
                y as int,
                i,
            ),
{
    let mono = match font {
        Font::Tiny => &ascii::FONT_4X6,
        Font::Small => &ascii::FONT_6X10,
        Font::Medium => &ascii::FONT_9X15,
        Font::Large => &ascii::FONT_10X20,
        Font::LargeLatin => &iso_8859_1::FONT_10X20,
    };
    let style = MonoTextStyle::new(mono, Gray8::new(255));
    let mut frame = Framebuffer::<Gray8, RawU8, LittleEndian, 160, 80, 12800>::new();
    Text::with_baseline(text, Point::new(x, y), style, Baseline::Top).draw(&mut frame).unwrap();
    frame.data().to_vec()
}

/// Width in pixels of a line of text.
pub open spec fn width_of(font: Font, text: Seq<char>) -> nat {
    text.len() * font.width()
}

/// Size of text in the header's font, also with every character on a line
/// of its own.
pub proof fn lemma_medium_width(text: Seq<char>)
    ensures
        width_of(Font::Medium, text) == 9 * text.len(),
        (text.len() + 1) * Font::Medium.height() == 15 * text.len() + 15,
{
    assert(Font::Medium.width() == 9);
    assert(Font::Medium.height() == 15);
    assert(text.len() * 9 == 9 * text.len());
    assert((text.len() + 1) * 15 == 15 * text.len() + 15);
}

/// Short text near the panel keeps its coordinates.
pub proof fn lemma_text_fits(font: Font, len: nat, x: int, y: int)
    requires
        len <= 1_000_000,
        -1_000_000 <= x <= 1_000_000,
        -1_000_000 <= y <= 1_000_000,
    ensures
        text_fits(font, len, x, y),
{
    let w = font.width();
    let h = font.height();
    assert(len * w <= 10_000_000) by (nonlinear_arith)
        requires
            len <= 1_000_000,
            w <= 10,
    ;
    assert((len + 1) * h <= 30_000_000) by (nonlinear_arith)
        requires
            len <= 1_000_000,
            h <= 20,
    ;
}

/// Width in pixels of a line of text, as a signed number: above its range it
/// wraps to a negative one.
pub fn text_width(font: Font, text: &str) -> (w: i32)
    requires
        width_of(font, text@) <= u32::MAX,
    ensures
        w == (if width_of(font, text@) <= i32::MAX {
            width_of(font, text@) as int
        } else {
            width_of(font, text@) - 0x1_0000_0000
        }),
{
    let advance: u32 = character_size(font).0 + character_spacing(font);
    let count: usize = text.unicode_len();
    proof {
        let n = text@.len();
        let a = font.width();
        assert(n <= n * a) by (nonlinear_arith)
            requires
                a >= 1,
        ;
    }
    let w: u32 = count as u32 * advance;
    proof {
        assert(w <= 0x7fff_ffff ==> (w as i32) as int == w as int) by (bit_vector);
        assert(w > 0x7fff_ffff ==> (w as i32) as int == w as int - 0x1_0000_0000) by (bit_vector);
    }
    w as i32
}

} // verus!
