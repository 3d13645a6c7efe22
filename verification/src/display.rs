//! The display as a whole: the framebuffer, the header and the rotation, and
//! the order in which a frame comes about. The caller reads the host, sends
//! the frame to the panel and tells the time.

use vstd::prelude::*;

use crate::color::BLUE;
use crate::framebuffer::{
    black_frame, draws, fill_rows, lemma_clipped, page_rows, unknown, Draw, FrameBuffer, Op,
};
use crate::header::{same_below, Header, HeaderView};
use crate::layout::{all_near, lemma_near_drawable};
use crate::panel::{DIVIDER_H, DIVIDER_Y, HEADER_H, PAGE_TOP, PIXELS};
use crate::rotation::{
    blank_page, shift_at, show_page, show_wipe, with_page, Rotation, Stage,
};

verus! {

/// What a frame still needs once its header has been drawn.
#[derive(Clone, Copy, PartialEq, Eq, Structural, Debug)]
pub enum Step {
    /// Nothing: the page stays as it is.
    Still,
    /// The page's content, drawn again.
    Redraw,
    /// The page and the one that is to come, each at its offset.
    Wipe { next: usize },
}

/// Whether a frame shows the blue divider under the header.
pub open spec fn divider_shows(frame: Seq<u16>) -> bool {
    forall|i: int|
        0 <= i < PIXELS && DIVIDER_Y <= i / 160 < DIVIDER_Y + DIVIDER_H ==> #[trigger] frame[i]
            == BLUE
}

proof fn lemma_divider_kept(a: Seq<u16>, b: Seq<u16>)
    requires
        divider_shows(a),
        same_below(b, a),
    ensures
        divider_shows(b),
{
    assert forall|i: int|
        0 <= i < PIXELS && DIVIDER_Y <= i / 160 < DIVIDER_Y + DIVIDER_H implies #[trigger] b[i]
        == BLUE by {
        assert(HEADER_H * 160 <= i);
        assert(a[i] == BLUE);
    }
}

proof fn lemma_divider_over_pages(frame: Seq<u16>, page: Seq<Draw>, x: int, y: int)
    requires
        frame.len() == PIXELS,
        divider_shows(frame),
    ensures
        blank_page(frame).len() == PIXELS,
        with_page(frame, page, x, y).len() == PIXELS,
        divider_shows(blank_page(frame)),
        divider_shows(with_page(frame, page, x, y)),
{
    lemma_clipped(frame, page, page_rows(), x, PAGE_TOP + y);
    let painted = with_page(frame, page, x, y);
    assert forall|i: int|
        0 <= i < PIXELS && DIVIDER_Y <= i / 160 < DIVIDER_Y + DIVIDER_H implies #[trigger] painted[i]
        == BLUE by {
        assert(frame[i] == BLUE);
    }
    let blank = blank_page(frame);
    assert forall|i: int|
        0 <= i < PIXELS && DIVIDER_Y <= i / 160 < DIVIDER_Y + DIVIDER_H implies #[trigger] blank[i]
        == BLUE by {
        assert(frame[i] == BLUE);
    }
}

/// The first frame: the divider and the header, to be shown while the first
/// page is still in the making.
pub fn first_frame(header: &mut Header, now: u128) -> (fb: FrameBuffer)
    requires
        old(header).wf(),
        now + old(header)@.hold <= u128::MAX,
    ensures
        final(header).wf(),
        final(header)@ == old(header)@.frame(false, now as int).next,
        fb.wf(),
        fb@.shown == unknown(),
        fb@.back == old(header)@.drawn(
            fill_rows(black_frame(), DIVIDER_Y as int, DIVIDER_Y + DIVIDER_H, BLUE),
            false,
            now as int,
        ),
        !old(header)@.text.contains('\n') ==> divider_shows(fb@.back) && same_below(
            fb@.back,
            fill_rows(black_frame(), DIVIDER_Y as int, DIVIDER_Y + DIVIDER_H, BLUE),
        ),
{
    let mut fb = FrameBuffer::new();
    fb.draw_divider();
    let ghost barred = fb@.back;
    assert(divider_shows(barred));
    header.draw(&mut fb, false, now);
    proof {
        if !old(header)@.text.contains('\n') {
            lemma_divider_kept(barred, fb@.back);
        }
    }
    fb
}

/// The display.
pub struct Display {
    pub fb: FrameBuffer,
    pub header: Header,
    pub rotation: Rotation,
}

impl Display {
    /// Whether the parts are sound, and the divider is on the frame.
    pub open spec fn wf(self) -> bool {
        &&& self.fb.wf()
        &&& self.header.wf()
        &&& self.rotation@.wf()
        &&& !self.header@.text.contains('\n') ==> divider_shows(self.fb@.back)
    }

    /// Whether a wipe is running.
    pub open spec fn wiping(self) -> bool {
        self.rotation@.stage is Wipe
    }

    /// Starts a frame: draws the header, which does not turn its page while
    /// a wipe keeps the bus busy, and says what else the frame needs. A
    /// redraw that is due gives way once to a header that has changed. Header
    /// text without line feeds leaves the page as it is.
    pub fn begin(&mut self, now: u128) -> (step: Step)
        requires
            old(self).wf(),
            now + old(self).header@.hold <= u128::MAX,
        ensures
            final(self).wf(),
            ({
                let f = old(self).header@.frame(old(self).wiping(), now as int);
                &&& final(self).header@ == f.next
                &&& final(self).rotation@ == old(self).rotation@.looked(f.changed, now)
                &&& final(self).fb@.shown == old(self).fb@.shown
                &&& final(self).fb@.back == old(self).header@.drawn(
                    old(self).fb@.back,
                    old(self).wiping(),
                    now as int,
                )
                &&& step == (match old(self).rotation@.stage {
                    Stage::Wipe { next, .. } => Step::Wipe { next },
                    Stage::Hold { .. } => if old(self).rotation@.redraws(f.changed, now) {
                        Step::Redraw
                    } else {
                        Step::Still
                    },
                })
            }),
            !old(self).header@.text.contains('\n') ==> same_below(
                final(self).fb@.back,
                old(self).fb@.back,
            ),
    {
        let wipe = match self.rotation.stage() {
            Stage::Wipe { next, .. } => Some(next),
            Stage::Hold { .. } => None,
        };
        let changed = self.header.draw(&mut self.fb, wipe.is_some(), now);
        proof {
            if !old(self).header@.text.contains('\n') {
                lemma_divider_kept(old(self).fb@.back, self.fb@.back);
            }
        }
        let redraw = self.rotation.refresh(changed, now);
        match wipe {
            Some(next) => Step::Wipe { next },
            None => if redraw {
                Step::Redraw
            } else {
                Step::Still
            },
        }
    }

    /// Draws the page again, and sets the header's color for the frames to
    /// come.
    pub fn redraw(&mut self, page: &Vec<Op>, color: u16, now: u128)
        requires
            old(self).wf(),
            all_near(draws(page@)),
            now + old(self).rotation@.refresh <= u128::MAX,
        ensures
            final(self).wf(),
            final(self).header@ == (HeaderView { color, ..old(self).header@ }),
            final(self).rotation@ == old(self).rotation@.refreshed(now),
            final(self).fb@.shown == old(self).fb@.shown,
            final(self).fb@.back == with_page(
                blank_page(old(self).fb@.back),
                draws(page@),
                0,
                0,
            ),
    {
        self.header.set_color(color);
        proof {
            lemma_near_drawable(draws(page@), 0, PAGE_TOP as int);
        }
        show_page(&mut self.fb, page);
        proof {
            let was = old(self).fb@.back;
            if !old(self).header@.text.contains('\n') {
                lemma_divider_over_pages(was, Seq::empty(), 0, 0);
                lemma_divider_over_pages(blank_page(was), draws(page@), 0, 0);
            }
        }
        self.rotation.refreshed(now);
    }

    /// Draws the two pages of a wipe.
    pub fn slide(&mut self, leaving: &Vec<Op>, coming: &Vec<Op>)
        requires
            old(self).wf(),
            old(self).wiping(),
            all_near(draws(leaving@)),
            all_near(draws(coming@)),
        ensures
            final(self).wf(),
            final(self).header@ == old(self).header@,
            final(self).rotation@ == old(self).rotation@,
            final(self).fb@.shown == old(self).fb@.shown,
            ({
                let s = shift_at(
                    old(self).rotation@.mode,
                    old(self).rotation@.stage->progress as int,
                );
                final(self).fb@.back == with_page(
                    with_page(
                        blank_page(old(self).fb@.back),
                        draws(leaving@),
                        s.out_x as int,
                        s.out_y as int,
                    ),
                    draws(coming@),
                    s.in_x as int,
                    s.in_y as int,
                )
            }),
    {
        if let Some((_, s)) = self.rotation.shift() {
            proof {
                crate::laws::screen::law_wiped_pages_lie_side_by_side(
                    self.rotation@.mode,
                    self.rotation@.stage->progress as int,
                );
                lemma_near_drawable(draws(leaving@), s.out_x as int, PAGE_TOP + s.out_y);
                lemma_near_drawable(draws(coming@), s.in_x as int, PAGE_TOP + s.in_y);
            }
            show_wipe(&mut self.fb, leaving, coming, s);
            proof {
                let was = old(self).fb@.back;
                if !old(self).header@.text.contains('\n') {
                    lemma_divider_over_pages(was, Seq::empty(), 0, 0);
                    let blank = blank_page(was);
                    lemma_divider_over_pages(
                        blank,
                        draws(leaving@),
                        s.out_x as int,
                        s.out_y as int,
                    );
                    lemma_divider_over_pages(
                        with_page(blank, draws(leaving@), s.out_x as int, s.out_y as int),
                        draws(coming@),
                        s.in_x as int,
                        s.in_y as int,
                    );
                }
            }
        }
    }

    /// Ends a frame that has been sent: the wipe moves on, or else the page's
    /// time is looked at. Says whether the rotation is to move on.
    pub fn end(&mut self, now: u128) -> (over: bool)
        requires
            old(self).wf(),
            now + old(self).rotation@.hold <= u128::MAX,
        ensures
            final(self).wf(),
            final(self).fb@ == old(self).fb@,
            final(self).header@ == old(self).header@,
            final(self).rotation@ == (if old(self).wiping() {
                old(self).rotation@.stepped()
            } else {
                old(self).rotation@.flushed(now)
            }),
            over == old(self).rotation@.over(now),
    {
        match self.rotation.stage() {
            Stage::Wipe { .. } => {
                self.rotation.step();
                false
            },
            Stage::Hold { .. } => self.rotation.flushed(now),
        }
    }

    /// Moves the rotation on to the next page that wants to show, and tells
    /// the header.
    pub fn turn(&mut self, active: &Vec<bool>)
        requires
            old(self).wf(),
            active@.len() == old(self).rotation@.pages,
        ensures
            final(self).wf(),
            final(self).fb@ == old(self).fb@,
            final(self).header@ == (HeaderView { armed: true, ..old(self).header@ }),
            final(self).rotation@ == old(self).rotation@.moved_on(active@),
    {
        self.rotation.advance(active);
        self.header.trigger();
    }
}

} // verus!
