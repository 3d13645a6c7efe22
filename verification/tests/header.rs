use rack_panel::color::{BLACK, BLUE, RED, WHITE};
use rack_panel::font::Font;
use rack_panel::framebuffer::{FrameBuffer, Op};
use rack_panel::header::{paginate, Header, HeaderAlign, HeaderMode};
use rack_panel::text::chars_of;

const SEC: u128 = 1_000_000_000;

fn band(fb: &FrameBuffer) -> Vec<u16> {
    (0..15u16).flat_map(|y| (0..160u16).map(move |x| (x, y))).map(|(x, y)| fb.pixel(x, y)).collect()
}

fn picture(lines: &[(&str, i32, i32)], color: u16) -> Vec<u16> {
    let mut fb = FrameBuffer::new();
    let ops = lines
        .iter()
        .map(|(t, x, y)| Op::Text { font: Font::Medium, text: t.to_string(), x: *x, y: *y, color })
        .collect();
    fb.draw_header_band(&ops);
    band(&fb)
}

fn header(mode: HeaderMode, align: HeaderAlign, sync: bool) -> Header {
    Header::new("10.0.0.5 - rack1", mode, align, 10 * SEC, sync, 0)
}

#[test]
fn text_is_cut_into_pages() {
    assert_eq!(
        paginate(&chars_of("a-name-of-more-than-seventeen letters"), Font::Medium),
        vec!["a-name-of-more-th", "an-seventeen lett", "ers"]
    );
    assert_eq!(paginate(&chars_of("  short "), Font::Medium), vec!["short"]);
    assert!(paginate(&chars_of(""), Font::Medium).is_empty());
    assert_eq!(paginate(&chars_of(&"x".repeat(41)), Font::Tiny).len(), 2);
}

#[test]
fn cut_pages_turn_after_their_time() {
    let mut fb = FrameBuffer::new();
    let mut h = header(HeaderMode::Cut, HeaderAlign::Left, false);
    assert!(!h.draw(&mut fb, false, 1));
    assert_eq!(band(&fb), picture(&[("10.0.0.5", 0, 0)], WHITE));
    assert!(!h.draw(&mut fb, false, 10 * SEC - 1));
    assert!(!h.draw(&mut fb, true, 10 * SEC));
    assert_eq!(band(&fb), picture(&[("10.0.0.5", 0, 0)], WHITE));
    assert!(h.draw(&mut fb, false, 11 * SEC));
    assert_eq!(band(&fb), picture(&[("rack1", 0, 0)], WHITE));
    assert!(!h.draw(&mut fb, false, 20 * SEC));
    h.set_color(RED);
    assert!(h.draw(&mut fb, false, 21 * SEC));
    assert_eq!(band(&fb), picture(&[("10.0.0.5", 0, 0)], RED));
}

#[test]
fn alignment() {
    for (align, x) in [(HeaderAlign::Left, 0), (HeaderAlign::Center, 44), (HeaderAlign::Right, 88)] {
        let mut fb = FrameBuffer::new();
        header(HeaderMode::Cut, align, false).draw(&mut fb, false, 1);
        assert_eq!(band(&fb), picture(&[("10.0.0.5", x, 0)], WHITE));
    }
}

#[test]
fn single_pages_stay() {
    let mut fb = FrameBuffer::new();
    let mut h = Header::new("rack1", HeaderMode::WipeLeft, HeaderAlign::Left, SEC, false, 0);
    assert!(!h.draw(&mut fb, false, 100 * SEC));
    assert_eq!(band(&fb), picture(&[("rack1", 0, 0)], WHITE));
}

#[test]
fn sync_waits_for_the_trigger() {
    let mut fb = FrameBuffer::new();
    let mut h = header(HeaderMode::Cut, HeaderAlign::Left, true);
    h.trigger();
    assert!(!h.draw(&mut fb, false, 9 * SEC));
    assert!(!h.draw(&mut fb, false, 50 * SEC));
    h.trigger();
    assert!(h.draw(&mut fb, true, 51 * SEC));
    assert_eq!(band(&fb), picture(&[("rack1", 0, 0)], WHITE));
    assert!(!h.draw(&mut fb, false, 100 * SEC));
}

#[test]
fn sideways_wipe() {
    let mut fb = FrameBuffer::new();
    let mut h = header(HeaderMode::WipeLeft, HeaderAlign::Left, false);
    assert!(!h.draw(&mut fb, false, 10 * SEC));
    assert_eq!(band(&fb), picture(&[("10.0.0.5", 0, 0)], WHITE));
    for step in 0..10 {
        assert_eq!(h.draw(&mut fb, true, 11 * SEC), step > 0);
        let p = step * 16;
        assert_eq!(band(&fb), picture(&[("10.0.0.5", -p, 0), ("rack1", 160 - p, 0)], WHITE));
    }
    assert!(h.draw(&mut fb, false, 12 * SEC));
    assert_eq!(band(&fb), picture(&[("rack1", 0, 0)], WHITE));
    assert!(!h.draw(&mut fb, false, 21 * SEC - 1));
}

#[test]
fn upward_and_downward_wipes_stay_in_the_band() {
    for (mode, d) in [(HeaderMode::WipeUp, -1), (HeaderMode::WipeDown, 1)] {
        let mut fb = FrameBuffer::new();
        fb.draw_divider();
        let mut h = header(mode, HeaderAlign::Left, false);
        h.draw(&mut fb, false, 10 * SEC);
        for step in 0..5 {
            assert_eq!(h.draw(&mut fb, false, 11 * SEC), step > 0);
            let p = step * 3;
            let want = picture(&[("10.0.0.5", 0, d * p), ("rack1", 0, d * (p - 15))], WHITE);
            assert_eq!(band(&fb), want);
            assert_eq!(fb.pixel(3, 15), BLACK);
            assert_eq!(fb.pixel(3, 16), BLUE);
            assert_eq!(fb.pixel(3, 18), BLACK);
        }
        assert!(h.draw(&mut fb, false, 12 * SEC));
        assert!(!h.draw(&mut fb, false, 12 * SEC));
    }
    assert_eq!(HeaderMode::WipeRight.wipe_dir(), (1, 0));
    assert_eq!(HeaderMode::Slide.wipe_dir(), (0, 0));
}

#[test]
fn marquee_moves_and_starts_over() {
    let text = "10.0.0.5 - a-long-host-name";
    let span = 27 * 9 + 24;
    let mut fb = FrameBuffer::new();
    let mut h = Header::new(text, HeaderMode::Slide, HeaderAlign::Left, SEC, false, 0);
    for i in 0..span + 3 {
        assert!(h.draw(&mut fb, false, 1));
        if i % 50 < 2 || i >= span {
            let o = i % span;
            assert_eq!(band(&fb), picture(&[(text, -o, 0), (text, span - o, 0)], WHITE));
        }
    }
    let mut short = Header::new("rack1", HeaderMode::Slide, HeaderAlign::Right, SEC, false, 0);
    assert!(!short.draw(&mut fb, false, 1));
    assert_eq!(band(&fb), picture(&[("rack1", 115, 0)], WHITE));
}

#[test]
fn changes_are_reported_exactly() {
    let modes = [
        HeaderMode::Cut,
        HeaderMode::Slide,
        HeaderMode::WipeUp,
        HeaderMode::WipeDown,
        HeaderMode::WipeLeft,
        HeaderMode::WipeRight,
    ];
    for mode in modes {
        for align in [HeaderAlign::Left, HeaderAlign::Center, HeaderAlign::Right] {
            for text in ["10.0.0.5 - rack1.example.com", "rack1", "twin - twin"] {
                let mut fb = FrameBuffer::new();
                let mut h = Header::new(text, mode, align, 2 * SEC, false, 0);
                h.draw(&mut fb, false, 1);
                for frame in 0..120u128 {
                    if frame % 29 == 7 {
                        h.set_color(if frame % 2 == 0 { RED } else { WHITE });
                    }
                    let before = band(&fb);
                    let changed = h.draw(&mut fb, frame % 3 == 0, frame * SEC / 5);
                    assert_eq!(changed, band(&fb) != before, "{mode:?} {align:?} {text} {frame}");
                }
            }
        }
    }
}

#[test]
fn colors_are_changes() {
    let mut fb = FrameBuffer::new();
    let mut h = header(HeaderMode::Cut, HeaderAlign::Left, false);
    assert!(!h.draw(&mut fb, false, 1));
    h.set_color(RED);
    assert!(h.draw(&mut fb, false, 2));
    assert!(!h.draw(&mut fb, false, 3));
    h.set_color(RED);
    assert!(!h.draw(&mut fb, false, 4));
}

#[test]
fn triggers_do_not_outlive_the_next_frame() {
    let mut fb = FrameBuffer::new();
    let mut h = header(HeaderMode::WipeUp, HeaderAlign::Left, true);
    h.trigger();
    h.draw(&mut fb, false, 10 * SEC);
    h.draw(&mut fb, false, 11 * SEC);
    // A trigger in the middle of the wipe is used up by the frame behind it.
    h.trigger();
    for _ in 0..4 {
        h.draw(&mut fb, false, 12 * SEC);
    }
    assert!(h.draw(&mut fb, false, 12 * SEC));
    assert!(!h.draw(&mut fb, false, 100 * SEC));
    assert!(!h.draw(&mut fb, false, 101 * SEC));
    assert_eq!(band(&fb), picture(&[("rack1", 0, 0)], WHITE));
}
