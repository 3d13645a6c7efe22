use std::convert::Infallible;

use embedded_graphics::draw_target::DrawTarget;
use embedded_graphics::draw_target::DrawTargetExt;
use embedded_graphics::geometry::{OriginDimensions, Point, Size};
use embedded_graphics::mono_font::{ascii, iso_8859_1, MonoFont, MonoTextStyle};
use embedded_graphics::pixelcolor::{IntoStorage, Rgb565, RgbColor};
use embedded_graphics::primitives::{Primitive, PrimitiveStyle, Rectangle};
use embedded_graphics::text::{Baseline, Text};
use embedded_graphics::{Drawable, Pixel};

use rack_panel::color::{
    temp_color, usage_color, BLACK, BLUE, DIM, GRAY, GREEN, LIGHT_BLUE, MAGENTA, ORANGE, RED,
    WHITE, YELLOW,
};
use rack_panel::font::{text_width, Font};
use rack_panel::framebuffer::{Band, FrameBuffer, Op};
use rack_panel::rotation::{exit_screen, show_page, show_wipe, Shift};

struct Screen {
    px: Vec<u16>,
}

impl Screen {
    fn new() -> Self {
        Screen { px: vec![0; 160 * 80] }
    }

    fn text(&mut self, font: &MonoFont, text: &str, x: i32, y: i32, color: Rgb565) {
        let style = MonoTextStyle::new(font, color);
        Text::with_baseline(text, Point::new(x, y), style, Baseline::Top).draw(self).unwrap();
    }

    fn same_as(&self, fb: &FrameBuffer) {
        for y in 0..80u16 {
            for x in 0..160u16 {
                assert_eq!(fb.pixel(x, y), self.px[y as usize * 160 + x as usize], "{x} {y}");
            }
        }
    }
}

impl OriginDimensions for Screen {
    fn size(&self) -> Size {
        Size::new(160, 80)
    }
}

impl DrawTarget for Screen {
    type Color = Rgb565;
    type Error = Infallible;

    fn draw_iter<I>(&mut self, pixels: I) -> Result<(), Infallible>
    where
        I: IntoIterator<Item = Pixel<Rgb565>>,
    {
        for Pixel(p, c) in pixels {
            if (0..160).contains(&p.x) && (0..80).contains(&p.y) {
                self.px[p.y as usize * 160 + p.x as usize] = c.into_storage();
            }
        }
        Ok(())
    }
}

fn op(font: Font, text: &str, x: i32, y: i32, color: u16) -> Op {
    Op::Text { font, text: text.to_string(), x, y, color }
}

#[test]
fn text_looks_as_embedded_graphics_draws_it() {
    let fonts: [(Font, &MonoFont); 5] = [
        (Font::Tiny, &ascii::FONT_4X6),
        (Font::Small, &ascii::FONT_6X10),
        (Font::Medium, &ascii::FONT_9X15),
        (Font::Large, &ascii::FONT_10X20),
        (Font::LargeLatin, &iso_8859_1::FONT_10X20),
    ];
    for (font, mono) in fonts {
        let places = [("LOAD 42", 0, 0), ("57\u{b0}", 120, 5), ("a\nb", 3, 70), ("wide", -9, -4)];
        for (text, x, y) in places {
            let mut fb = FrameBuffer::new();
            fb.draw_panel(&vec![op(font, text, x, y, WHITE)]);
            let mut screen = Screen::new();
            screen.text(mono, text, x, y, Rgb565::WHITE);
            screen.same_as(&fb);
            assert!(screen.px.iter().any(|p| *p != 0));
        }
    }
}

#[test]
fn widths_of_text() {
    assert_eq!(text_width(Font::Tiny, "LOAD"), 16);
    assert_eq!(text_width(Font::Small, "iops"), 24);
    assert_eq!(text_width(Font::Medium, "100%"), 36);
    assert_eq!(text_width(Font::Large, "CLOSED"), 60);
    assert_eq!(text_width(Font::LargeLatin, "57\u{b0}"), 30);
    assert_eq!(text_width(Font::Small, ""), 0);
    for mono in [&ascii::FONT_4X6, &ascii::FONT_6X10, &ascii::FONT_9X15, &ascii::FONT_10X20] {
        assert_eq!(mono.character_spacing, 0);
    }
}

#[test]
fn colors_are_those_of_embedded_graphics() {
    let pairs = [
        (BLACK, Rgb565::BLACK),
        (WHITE, Rgb565::WHITE),
        (RED, Rgb565::RED),
        (GREEN, Rgb565::GREEN),
        (BLUE, Rgb565::BLUE),
        (YELLOW, Rgb565::YELLOW),
        (ORANGE, Rgb565::new(31, 30, 0)),
        (GRAY, Rgb565::new(16, 32, 16)),
        (DIM, Rgb565::new(20, 40, 20)),
        (LIGHT_BLUE, Rgb565::new(10, 50, 31)),
        (MAGENTA, Rgb565::new(28, 16, 24)),
    ];
    for (ours, theirs) in pairs {
        assert_eq!(ours, theirs.into_storage());
    }
}

#[test]
fn load_gradient() {
    assert_eq!(usage_color(0), GREEN);
    assert_eq!(usage_color(50), YELLOW);
    assert_eq!(usage_color(100), RED);
    assert_eq!(usage_color(255), RED);
    for p in 0..=255u8 {
        let q = p.min(100) as u16;
        let want = if q <= 50 {
            Rgb565::new((31 * q / 50) as u8, 63, 0)
        } else {
            Rgb565::new(31, (63 * (100 - q) / 50) as u8, 0)
        };
        assert_eq!(usage_color(p), want.into_storage());
    }
}

#[test]
fn temperature_colors() {
    assert_eq!(temp_color(49), GREEN);
    assert_eq!(temp_color(50), YELLOW);
    assert_eq!(temp_color(64), YELLOW);
    assert_eq!(temp_color(65), ORANGE);
    assert_eq!(temp_color(74), ORANGE);
    assert_eq!(temp_color(75), RED);
}

#[test]
fn pages_are_clipped_and_moved() {
    for (dx, dy) in [(0, 0), (40, 0), (-120, 0), (0, 14), (0, -47)] {
        let page = vec![
            Op::Fill { x: -5, y: -30, w: 60, h: 200, color: RED },
            op(Font::LargeLatin, "57\u{b0}", 100, 5, GREEN),
            Op::Fill { x: 0, y: 0, w: 0, h: 9, color: BLUE },
        ];
        let mut fb = FrameBuffer::new();
        fb.draw_divider();
        fb.draw_page(&page, dx, dy);
        let mut screen = Screen::new();
        Rectangle::new(Point::new(0, 16), Size::new(160, 2))
            .into_styled(PrimitiveStyle::with_fill(Rgb565::BLUE))
            .draw(&mut screen)
            .unwrap();
        let area = Rectangle::new(Point::new(0, 19), Size::new(160, 61));
        let mut clipped = screen.clipped(&area);
        let mut target = clipped.translated(Point::new(dx, 19 + dy));
        Rectangle::new(Point::new(-5, -30), Size::new(60, 200))
            .into_styled(PrimitiveStyle::with_fill(Rgb565::RED))
            .draw(&mut target)
            .unwrap();
        let style = MonoTextStyle::new(&iso_8859_1::FONT_10X20, Rgb565::GREEN);
        Text::with_baseline("57\u{b0}", Point::new(100, 5), style, Baseline::Top)
            .draw(&mut target)
            .unwrap();
        screen.same_as(&fb);
    }
}

#[test]
fn showing_a_page_twice_costs_nothing() {
    let page = vec![op(Font::Medium, "RAM", 0, 0, WHITE), Op::Fill { x: 9, y: 40, w: 9, h: 90, color: RED }];
    let mut fb = FrameBuffer::new();
    fb.draw_divider();
    show_page(&mut fb, &page);
    for band in fb.flush() {
        fb.commit(band);
    }
    show_page(&mut fb, &page);
    assert!(fb.flush().is_empty());
    show_page(&mut fb, &vec![]);
    let bands = fb.flush();
    assert_eq!(bands.last(), Some(&Band { start: 59, rows: 21 }));
    assert!(bands.iter().all(|b| b.start >= 19));
    assert_eq!(fb.pixel(0, 16), BLUE);
    assert_eq!(fb.pixel(159, 17), BLUE);
    assert_eq!(fb.pixel(0, 18), BLACK);
    assert_eq!(fb.pixel(9, 60), BLACK);
}

#[test]
fn wiped_pages_lie_side_by_side() {
    let left = vec![Op::Fill { x: 0, y: 0, w: 160, h: 61, color: RED }];
    let right = vec![Op::Fill { x: 0, y: 0, w: 160, h: 61, color: GREEN }];
    let mut fb = FrameBuffer::new();
    show_wipe(&mut fb, &left, &right, Shift { out_x: -40, out_y: 0, in_x: 120, in_y: 0 });
    for y in 19..80 {
        assert_eq!(fb.pixel(0, y), RED);
        assert_eq!(fb.pixel(119, y), RED);
        assert_eq!(fb.pixel(120, y), GREEN);
        assert_eq!(fb.pixel(159, y), GREEN);
    }
    assert_eq!(fb.pixel(0, 18), BLACK);
}

#[test]
fn exit_screens_center_their_text() {
    let fb = exit_screen("CLOSED", WHITE);
    let mut screen = Screen::new();
    screen.text(&ascii::FONT_10X20, "CLOSED", 50, 30, Rgb565::WHITE);
    screen.same_as(&fb);
    assert_eq!(fb.flush(), vec![Band { start: 0, rows: 80 }]);
    let long = exit_screen("a very long goodbye", RED);
    let mut screen = Screen::new();
    screen.text(&ascii::FONT_10X20, "a very long goodbye", 0, 30, Rgb565::RED);
    screen.same_as(&long);
}

#[test]
fn bands_are_runs_of_changed_rows() {
    let mut fb = FrameBuffer::new();
    for band in fb.flush() {
        fb.commit(band);
    }
    assert!(fb.flush().is_empty());
    fb.draw_panel(&vec![
        Op::Fill { x: 5, y: 2, w: 1, h: 3, color: RED },
        Op::Fill { x: 5, y: 6, w: 1, h: 1, color: RED },
        Op::Fill { x: 5, y: 79, w: 1, h: 5, color: RED },
    ]);
    let bands = fb.flush();
    assert_eq!(
        bands,
        vec![
            Band { start: 2, rows: 3 },
            Band { start: 6, rows: 1 },
            Band { start: 79, rows: 1 },
        ]
    );
    fb.commit(bands[0]);
    assert_eq!(fb.flush(), bands[1..].to_vec());
    fb.draw_panel(&vec![Op::Fill { x: 5, y: 6, w: 1, h: 1, color: BLACK }]);
    assert_eq!(fb.flush(), bands[2..].to_vec());
}

#[test]
fn masks_are_stamped_between_rows() {
    let mut fb = FrameBuffer::new();
    let mut mask = vec![0u8; 160 * 80];
    mask[160 * 3 + 4] = 1;
    mask[160 * 9 + 4] = 1;
    fb.stamp(&mask, 0, 9, RED);
    assert_eq!(fb.pixel(4, 3), RED);
    assert_eq!(fb.pixel(4, 9), BLACK);
    fb.clear_header();
    assert_eq!(fb.pixel(4, 3), BLACK);
    fb.draw_header_band(&vec![Op::Fill { x: 0, y: 10, w: 160, h: 70, color: RED }]);
    assert_eq!(fb.pixel(0, 14), RED);
    assert_eq!(fb.pixel(0, 15), BLACK);
    fb.clear_page_area();
    assert_eq!(fb.pixel(0, 14), RED);
}
