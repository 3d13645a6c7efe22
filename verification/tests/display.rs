use rack_panel::color::{BLACK, BLUE, GREEN, RED, WHITE};
use rack_panel::display::{first_frame, Display, Step};
use rack_panel::framebuffer::{FrameBuffer, Op};
use rack_panel::header::{Header, HeaderAlign, HeaderMode};
use rack_panel::rotation::{PageMode, Rotation, Stage};

const MS: u128 = 1_000_000;

fn page(color: u16) -> Vec<Op> {
    vec![Op::Fill { x: 0, y: 0, w: 160, h: 61, color }]
}

fn display(mode: PageMode) -> Display {
    let mut header =
        Header::new("10.0.0.5 - rack1", HeaderMode::Cut, HeaderAlign::Left, 100 * MS, false, 0);
    let fb = first_frame(&mut header, 0);
    let rotation = Rotation::new(&vec![true, true], mode, 50 * MS, 200 * MS);
    Display { fb, header, rotation }
}

fn divider_shows(fb: &FrameBuffer) -> bool {
    (0..160).all(|x| fb.pixel(x, 16) == BLUE && fb.pixel(x, 17) == BLUE && fb.pixel(x, 15) == BLACK)
}

#[test]
fn the_first_frame_has_header_and_divider() {
    let d = display(PageMode::Cut);
    assert!(divider_shows(&d.fb));
    assert!((0..15).any(|y| (0..160).any(|x| d.fb.pixel(x, y) == WHITE)));
    assert!((18..80).all(|y| (0..160).all(|x| d.fb.pixel(x, y) == BLACK)));
    assert_eq!(d.fb.flush().len(), 1);
}

#[test]
fn frames_of_a_held_page() {
    let mut d = display(PageMode::Cut);
    assert_eq!(d.begin(1 * MS), Step::Redraw);
    d.redraw(&page(GREEN), RED, 2 * MS);
    assert_eq!(d.fb.pixel(0, 19), GREEN);
    assert_eq!(d.fb.pixel(159, 79), GREEN);
    assert!(divider_shows(&d.fb));
    assert!(!d.end(10 * MS));
    assert_eq!(d.begin(20 * MS), Step::Still);
    assert!((0..15).any(|y| (0..160).any(|x| d.fb.pixel(x, y) == RED)));
    assert!(!d.end(21 * MS));
    assert_eq!(d.begin(52 * MS), Step::Redraw);
    d.redraw(&page(GREEN), WHITE, 52 * MS);
    assert!(!d.end(53 * MS));
    // The header turns its page in this frame, so the redraw waits for one.
    assert_eq!(d.begin(102 * MS), Step::Still);
    assert_eq!(d.begin(103 * MS), Step::Redraw);
    d.redraw(&page(GREEN), WHITE, 103 * MS);
    assert!(d.end(210 * MS));
    d.turn(&vec![true, true]);
    assert_eq!(d.rotation.current(), 1);
    assert_eq!(d.begin(211 * MS), Step::Still);
    assert_eq!(d.begin(212 * MS), Step::Redraw);
}

#[test]
fn frames_of_a_wipe() {
    let mut d = display(PageMode::WipeUp);
    d.begin(1 * MS);
    d.redraw(&page(GREEN), WHITE, 1 * MS);
    d.end(1 * MS);
    assert!(d.end(250 * MS));
    d.turn(&vec![true, true]);
    let before: Vec<u16> = (0..160).map(|x| d.fb.pixel(x, 5)).collect();
    for frame in 1..=4u16 {
        assert_eq!(d.begin(250 * MS), Step::Wipe { next: 1 });
        assert_eq!((0..160).map(|x| d.fb.pixel(x, 5)).collect::<Vec<u16>>(), before);
        d.slide(&page(GREEN), &page(RED));
        let edge = 80 - 14 * frame;
        assert_eq!(d.fb.pixel(7, edge - 1), GREEN);
        assert_eq!(d.fb.pixel(7, edge), RED);
        assert_eq!(d.fb.pixel(7, 18), BLACK);
        assert!(divider_shows(&d.fb));
        assert!(!d.end(260 * MS));
    }
    assert_eq!(d.rotation.current(), 1);
    assert!(matches!(d.rotation.stage(), Stage::Hold { .. }));
}

#[test]
fn frames_without_a_redraw_leave_the_page() {
    let mut d = display(PageMode::Cut);
    d.begin(1 * MS);
    d.redraw(&page(GREEN), WHITE, 2 * MS);
    for band in d.fb.flush() {
        d.fb.commit(band);
    }
    d.end(3 * MS);
    assert_eq!(d.begin(20 * MS), Step::Still);
    assert!(d.fb.flush().is_empty());
    // The header turns its page, and only its band is sent.
    assert_eq!(d.begin(51 * MS), Step::Still);
    assert_eq!(d.begin(120 * MS), Step::Still);
    assert!(!d.fb.flush().is_empty());
    assert!(d.fb.flush().iter().all(|b| b.start + b.rows <= 15));
}
