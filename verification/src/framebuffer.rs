//! In-memory framebuffer with differential flushing.
//!
//! Everything draws into `back`, and `flush` tells which rows differ from
//! `shown`, what the panel is known to show: only those are sent over the slow
//! bus. Once a band of rows has been sent, `commit` records it as shown.

use vstd::prelude::*;
use vstd::slice::slice_subrange;

use crate::color::{BLACK, BLUE};
use crate::font::{in_text_box, render_text, text_fits, text_mask, Font};
use crate::panel::{DIVIDER_H, DIVIDER_Y, HEADER_H, HEIGHT, PAGE_TOP, PIXELS, WIDTH};
use crate::text::equal_text;

verus! {

// ---- drawing operations ----

/// One drawing operation.
pub enum Op {
    /// A filled rectangle.
    Fill { x: i32, y: i32, w: u32, h: u32, color: u16 },
    /// Text with its top left corner at the given point, on what is there.
    Text { font: Font, text: String, x: i32, y: i32, color: u16 },
}

/// What a drawing operation says.
pub enum Draw {
    Fill { x: int, y: int, w: nat, h: nat, color: u16 },
    Text { font: Font, text: Seq<char>, x: int, y: int, color: u16 },
}

impl View for Op {
    type V = Draw;

    open spec fn view(&self) -> Draw {
        match *self {
            Op::Fill { x, y, w, h, color } => Draw::Fill {
                x: x as int,
                y: y as int,
                w: w as nat,
                h: h as nat,
                color,
            },
            Op::Text { font, text, x, y, color } => Draw::Text {
                font,
                text: text@,
                x: x as int,
                y: y as int,
                color,
            },
        }
    }
}

/// What a list of drawing operations says.
pub open spec fn draws(v: Seq<Op>) -> Seq<Draw> {
    Seq::new(v.len(), |i: int| v[i]@)
}

fn same_op(a: &Op, b: &Op) -> (r: bool)
    ensures
        r == (a@ == b@),
{
    match (a, b) {
        (
            Op::Fill { x, y, w, h, color },
            Op::Fill { x: bx, y: by, w: bw, h: bh, color: bcolor },
        ) => *x == *bx && *y == *by && *w == *bw && *h == *bh && *color == *bcolor,
        (
            Op::Text { font, text, x, y, color },
            Op::Text { font: bfont, text: btext, x: bx, y: by, color: bcolor },
        ) => *font == *bfont && equal_text(text.as_str(), btext.as_str()) && *x == *bx && *y == *by
            && *color == *bcolor,
        _ => false,
    }
}

/// Whether two lists of drawing operations say the same.
pub fn same_ops(a: &Vec<Op>, b: &Vec<Op>) -> (r: bool)
    ensures
        r == (draws(a@) == draws(b@)),
{
    if a.len() != b.len() {
        assert(draws(a@).len() != draws(b@).len());
        return false;
    }
    let mut i: usize = 0;
    while i < a.len()
        invariant
            a@.len() == b@.len(),
            i <= a@.len(),
            forall|k: int| 0 <= k < i ==> (#[trigger] a@[k])@ == b@[k]@,
        decreases a@.len() - i,
    {
        if !same_op(&a[i], &b[i]) {
            assert(draws(a@)[i as int] != draws(b@)[i as int]);
            return false;
        }
        i = i + 1;
    }
    assert(draws(a@) =~= draws(b@));
    true
}

impl Draw {
    /// The color that the operation paints.
    pub open spec fn color(self) -> u16 {
        match self {
            Draw::Fill { color, .. } => color,
            Draw::Text { color, .. } => color,
        }
    }

    /// Whether the operation, moved by `(dx, dy)`, paints the pixel `i` of
    /// the frame.
    pub open spec fn covers(self, dx: int, dy: int, i: int) -> bool {
        match self {
            Draw::Fill { x, y, w, h, .. } => {
                &&& x + dx <= i % 160 < x + dx + w
                &&& y + dy <= i / 160 < y + dy + h
            },
            Draw::Text { font, text, x, y, .. } => text_mask(font, text, x + dx, y + dy)[i] != 0,
        }
    }

    /// Whether the operation draws no line feed.
    pub open spec fn one_line(self) -> bool {
        self matches Draw::Text { text, .. } ==> !text.contains('\n')
    }

    /// Whether the pixel `i` lies in the operation's rectangle, or in the box
    /// of its line of text, moved by `(dx, dy)`.
    pub open spec fn boxes(self, dx: int, dy: int, i: int) -> bool {
        match self {
            Draw::Fill { .. } => self.covers(dx, dy, i),
            Draw::Text { font, text, x, y, .. } => in_text_box(font, text.len(), x + dx, y + dy, i),
        }
    }

    /// Whether the operation, moved by `(dx, dy)`, can be drawn: text must
    /// keep its coordinates in 32 bits.
    pub open spec fn drawable(self, dx: int, dy: int) -> bool {
        match self {
            Draw::Fill { .. } => true,
            Draw::Text { font, text, x, y, .. } => {
                &&& x + dx <= i32::MAX
                &&& text_fits(font, text.len(), x + dx, y + dy)
            },
        }
    }
}

/// Rows from `top` up to, not including, `bottom`.
pub struct Rows {
    pub top: int,
    pub bottom: int,
}

/// A black frame.
pub open spec fn black_frame() -> Seq<u16> {
    Seq::new(PIXELS as nat, |i: int| BLACK)
}

/// All rows of the panel.
pub open spec fn whole_panel() -> Rows {
    Rows { top: 0, bottom: 80 }
}

/// The rows of the header band.
pub open spec fn header_rows() -> Rows {
    Rows { top: 0, bottom: HEADER_H as int }
}

/// The rows of the page area.
pub open spec fn page_rows() -> Rows {
    Rows { top: PAGE_TOP as int, bottom: 80 }
}

/// The frame after an operation moved by `(dx, dy)` and clipped to `rows`.
pub open spec fn paint(frame: Seq<u16>, d: Draw, rows: Rows, dx: int, dy: int) -> Seq<u16> {
    Seq::new(
        frame.len(),
        |i: int|
            if rows.top <= i / 160 < rows.bottom && d.covers(dx, dy, i) {
                d.color()
            } else {
                frame[i]
            },
    )
}

/// The frame after a list of operations, each on top of those before it.
pub open spec fn paint_all(frame: Seq<u16>, ds: Seq<Draw>, rows: Rows, dx: int, dy: int) -> Seq<u16>
    decreases ds.len(),
{
    if ds.len() == 0 {
        frame
    } else {
        paint(paint_all(frame, ds.drop_last(), rows, dx, dy), ds.last(), rows, dx, dy)
    }
}

/// Painting leaves everything outside the rows that it is clipped to.
pub proof fn lemma_clipped(frame: Seq<u16>, ds: Seq<Draw>, rows: Rows, dx: int, dy: int)
    ensures
        paint_all(frame, ds, rows, dx, dy).len() == frame.len(),
        forall|i: int|
            0 <= i < frame.len() && !(rows.top <= i / 160 < rows.bottom) ==> #[trigger] paint_all(
                frame,
                ds,
                rows,
                dx,
                dy,
            )[i] == frame[i],
    decreases ds.len(),
{
    if ds.len() > 0 {
        lemma_clipped(frame, ds.drop_last(), rows, dx, dy);
    }
}

/// Whether every operation of a list can be drawn.
pub open spec fn all_drawable(ds: Seq<Draw>, dx: int, dy: int) -> bool {
    forall|i: int| 0 <= i < ds.len() ==> (#[trigger] ds[i]).drawable(dx, dy)
}

/// Whether a pixel lies outside what any operation of a list can paint.
pub open spec fn spared(ds: Seq<Draw>, dx: int, dy: int, i: int) -> bool {
    forall|k: int|
        0 <= k < ds.len() ==> (#[trigger] ds[k]).one_line() && !ds[k].boxes(dx, dy, i)
}

/// The frame with the given rows in one color.
pub open spec fn fill_rows(frame: Seq<u16>, top: int, bottom: int, color: u16) -> Seq<u16> {
    Seq::new(
        frame.len(),
        |i: int|
            if top <= i / 160 < bottom {
                color
            } else {
                frame[i]
            },
    )
}

// ---- bands of rows ----

/// Consecutive rows to send as one full-width block.
#[derive(Clone, Copy, PartialEq, Eq, Structural, Debug)]
pub struct Band {
    pub start: u16,
    pub rows: u16,
}

/// What the next flush should show, and what the panel is known to show:
/// nothing is known of a pixel until its row has been sent.
pub struct Frames {
    pub back: Seq<u16>,
    pub shown: Seq<Option<u16>>,
}

/// The pixels of one row.
pub open spec fn row<T>(frame: Seq<T>, y: int) -> Seq<T> {
    frame.subrange(y * 160, y * 160 + 160)
}

/// A panel that is known to show a frame.
pub open spec fn known(frame: Seq<u16>) -> Seq<Option<u16>> {
    Seq::new(frame.len(), |i: int| Some(frame[i]))
}

/// A panel of which nothing is known.
pub open spec fn unknown() -> Seq<Option<u16>> {
    Seq::new(PIXELS as nat, |i: int| None)
}

impl Frames {
    /// Whether both frames have the panel's size.
    pub open spec fn whole(self) -> bool {
        self.back.len() == PIXELS && self.shown.len() == PIXELS
    }

    /// Whether a row is not known to be on the panel.
    pub open spec fn dirty(self, y: int) -> bool {
        row(known(self.back), y) != row(self.shown, y)
    }

    /// The runs of dirty rows among the first `n` rows, top to bottom.
    pub open spec fn bands(self, n: nat) -> Seq<Band>
        decreases n,
    {
        if n == 0 {
            Seq::empty()
        } else {
            let above = self.bands((n - 1) as nat);
            if !self.dirty(n - 1) {
                above
            } else if n >= 2 && self.dirty(n - 2) && above.len() > 0 {
                let last = above.last();
                above.drop_last().push(Band { start: last.start, rows: (last.rows + 1) as u16 })
            } else {
                above.push(Band { start: (n - 1) as u16, rows: 1 })
            }
        }
    }

    /// The frames once a band has reached the panel.
    pub open spec fn after(self, b: Band) -> Frames {
        Frames {
            back: self.back,
            shown: Seq::new(
                self.shown.len(),
                |i: int|
                    if b.start <= i / 160 < b.start + b.rows {
                        Some(self.back[i])
                    } else {
                        self.shown[i]
                    },
            ),
        }
    }

    /// The frames once the first `n` of the given bands have reached the
    /// panel.
    pub open spec fn after_all(self, bs: Seq<Band>, n: nat) -> Frames
        decreases n,
    {
        if n == 0 {
            self
        } else {
            self.after_all(bs, (n - 1) as nat).after(bs[n - 1])
        }
    }
}

// ---- the framebuffer ----

/// The framebuffer: RGB565 pixels, row by row.
pub struct FrameBuffer {
    back: Vec<u16>,
    shown: Vec<Option<u16>>,
}

impl View for FrameBuffer {
    type V = Frames;

    closed spec fn view(&self) -> Frames {
        Frames { back: self.back@, shown: self.shown@ }
    }
}

impl FrameBuffer {
    /// Whether both frames have the panel's size.
    pub open spec fn wf(self) -> bool {
        self@.whole()
    }

    /// A black frame. Nothing is known of what the panel shows, so the first
    /// flush sends all of it, whatever has been drawn by then.
    pub fn new() -> (fb: Self)
        ensures
            fb.wf(),
            fb@.back == black_frame(),
            fb@.shown == unknown(),
    {
        let mut shown: Vec<Option<u16>> = Vec::new();
        let mut i: usize = 0;
        while i < PIXELS
            invariant
                i <= PIXELS,
                shown@.len() == i,
                forall|k: int| 0 <= k < i ==> #[trigger] shown@[k] is None,
            decreases PIXELS - i,
        {
            shown.push(None);
            i = i + 1;
        }
        let fb = FrameBuffer { back: vec![0u16;PIXELS], shown };
        assert(fb@.back =~= black_frame());
        assert(fb@.shown =~= unknown());
        fb
    }

    /// The color of a pixel of the frame to show.
    pub fn pixel(&self, x: u16, y: u16) -> (c: u16)
        requires
            self.wf(),
            x < WIDTH,
            y < HEIGHT,
        ensures
            c == self@.back[y * 160 + x],
    {
        self.back[y as usize * 160 + x as usize]
    }

    /// Fills the rectangle of rows `r0..r1` and columns `c0..c1`.
    fn fill_cells(&mut self, r0: usize, r1: usize, c0: usize, c1: usize, color: u16)
        requires
            old(self).wf(),
            r1 <= 80,
            c1 <= 160,
        ensures
            final(self).wf(),
            final(self)@.shown == old(self)@.shown,
            forall|i: int|
                0 <= i < PIXELS ==> #[trigger] final(self)@.back[i] == (if r0 <= i / 160 < r1 && c0
                    <= i % 160 < c1 {
                    color
                } else {
                    old(self)@.back[i]
                }),
    {
        let ghost was = self.back@;
        let mut r: usize = r0;
        while r < r1
            invariant
                r1 <= 80,
                c1 <= 160,
                r0 <= r,
                self.back@.len() == PIXELS,
                self.shown@ == old(self).shown@,
                forall|i: int|
                    0 <= i < PIXELS ==> #[trigger] self.back@[i] == (if r0 <= i / 160 < r && i / 160
                        < r1 && c0 <= i % 160 < c1 {
                        color
                    } else {
                        was[i]
                    }),
            decreases r1 - r,
        {
            let mut c: usize = c0;
            while c < c1
                invariant
                    r0 <= r < r1 <= 80,
                    c0 <= c,
                    c1 <= 160,
                    self.back@.len() == PIXELS,
                    self.shown@ == old(self).shown@,
                    forall|i: int|
                        0 <= i < PIXELS ==> #[trigger] self.back@[i] == (if r0 <= i / 160 < r && c0
                            <= i % 160 < c1 || i / 160 == r && c0 <= i % 160 < c && i % 160 < c1 {
                            color
                        } else {
                            was[i]
                        }),
                decreases c1 - c,
            {
                let at: usize = r * 160 + c;
                self.back.set(at, color);
                assert(at as int / 160 == r && at as int % 160 == c);
                c = c + 1;
            }
            r = r + 1;
        }
    }

    /// Colors the pixels of rows `top` to `bottom` that a mask marks.
    pub fn stamp(&mut self, mask: &Vec<u8>, top: i32, bottom: i32, color: u16)
        requires
            old(self).wf(),
            mask@.len() == PIXELS,
            0 <= top <= bottom <= 80,
        ensures
            final(self).wf(),
            final(self)@.shown == old(self)@.shown,
            forall|i: int|
                0 <= i < PIXELS ==> #[trigger] final(self)@.back[i] == (if top <= i / 160 < bottom
                    && mask@[i] != 0 {
                    color
                } else {
                    old(self)@.back[i]
                }),
    {
        let ghost was = self.back@;
        let mut i: usize = top as usize * 160;
        let end: usize = bottom as usize * 160;
        while i < end
            invariant
                0 <= top <= bottom <= 80,
                top * 160 <= i <= end,
                end == bottom * 160,
                self.back@.len() == PIXELS,
                self.shown@ == old(self).shown@,
                mask@.len() == PIXELS,
                forall|j: int|
                    0 <= j < PIXELS ==> #[trigger] self.back@[j] == (if top * 160 <= j < i
                        && mask@[j] != 0 {
                        color
                    } else {
                        was[j]
                    }),
            decreases end - i,
        {
            if mask[i] != 0 {
                self.back.set(i, color);
            }
            i = i + 1;
        }
    }

    /// Paints an operation moved by `(dx, dy)`, clipped to rows `top` to
    /// `bottom`.
    fn draw(&mut self, op: &Op, top: i32, bottom: i32, dx: i32, dy: i32)
        requires
            old(self).wf(),
            0 <= top <= bottom <= 80,
            op@.drawable(dx as int, dy as int),
        ensures
            final(self).wf(),
            final(self)@.shown == old(self)@.shown,
            final(self)@.back == paint(
                old(self)@.back,
                op@,
                Rows { top: top as int, bottom: bottom as int },
                dx as int,
                dy as int,
            ),
            op@.one_line() ==> forall|i: int|
                0 <= i < PIXELS && !op@.boxes(dx as int, dy as int, i)
                    ==> #[trigger] final(self)@.back[i] == old(self)@.back[i],
    {
        let ghost was = self.back@;
        let ghost rows = Rows { top: top as int, bottom: bottom as int };
        match op {
            Op::Fill { x, y, w, h, color } => {
                let left: i64 = *x as i64 + dx as i64;
                let right: i64 = left + *w as i64;
                let above: i64 = *y as i64 + dy as i64;
                let below: i64 = above + *h as i64;
                let c0: i64 = within(left, 0, 160);
                let c1: i64 = within(right, 0, 160);
                let r0: i64 = within(above, top as i64, bottom as i64);
                let r1: i64 = within(below, top as i64, bottom as i64);
                self.fill_cells(r0 as usize, r1 as usize, c0 as usize, c1 as usize, *color);
                assert(self.back@ =~= paint(was, op@, rows, dx as int, dy as int));
            },
            Op::Text { font, text, x, y, color } => {
                let mask = render_text(*font, text.as_str(), *x + dx, *y + dy);
                self.stamp(&mask, top, bottom, *color);
                assert(self.back@ =~= paint(was, op@, rows, dx as int, dy as int));
            },
        }
    }

    fn draw_all(&mut self, ops: &Vec<Op>, top: i32, bottom: i32, dx: i32, dy: i32)
        requires
            old(self).wf(),
            0 <= top <= bottom <= 80,
            all_drawable(draws(ops@), dx as int, dy as int),
        ensures
            final(self).wf(),
            final(self)@.shown == old(self)@.shown,
            final(self)@.back == paint_all(
                old(self)@.back,
                draws(ops@),
                Rows { top: top as int, bottom: bottom as int },
                dx as int,
                dy as int,
            ),
            forall|i: int|
                0 <= i < PIXELS && spared(draws(ops@), dx as int, dy as int, i)
                    ==> #[trigger] final(self)@.back[i] == old(self)@.back[i],
    {
        let ghost was = self@.back;
        let ghost ds = draws(ops@);
        let ghost rows = Rows { top: top as int, bottom: bottom as int };
        let mut i: usize = 0;
        assert(ds.take(0) =~= Seq::<Draw>::empty());
        while i < ops.len()
            invariant
                i <= ops@.len(),
                self.wf(),
                0 <= top <= bottom <= 80,
                ds == draws(ops@),
                all_drawable(ds, dx as int, dy as int),
                rows == (Rows { top: top as int, bottom: bottom as int }),
                self@.shown == old(self)@.shown,
                self@.back == paint_all(was, ds.take(i as int), rows, dx as int, dy as int),
                forall|p: int|
                    0 <= p < PIXELS && spared(ds, dx as int, dy as int, p)
                        ==> #[trigger] self@.back[p] == was[p],
            decreases ops@.len() - i,
        {
            assert(ds[i as int] == ops@[i as int]@);
            assert(ds.take(i + 1).drop_last() =~= ds.take(i as int));
            self.draw(&ops[i], top, bottom, dx, dy);
            i = i + 1;
        }
        assert(ds.take(i as int) =~= ds);
    }

    /// Paints a page's operations, in page coordinates moved by
    /// `(offset_x, offset_y)`, clipped to the page area.
    pub fn draw_page(&mut self, ops: &Vec<Op>, offset_x: i32, offset_y: i32)
        requires
            old(self).wf(),
            PAGE_TOP + offset_y <= i32::MAX,
            all_drawable(draws(ops@), offset_x as int, PAGE_TOP + offset_y),
        ensures
            final(self).wf(),
            final(self)@.shown == old(self)@.shown,
            final(self)@.back == paint_all(
                old(self)@.back,
                draws(ops@),
                page_rows(),
                offset_x as int,
                PAGE_TOP + offset_y,
            ),
    {
        self.draw_all(ops, PAGE_TOP, HEIGHT as i32, offset_x, PAGE_TOP + offset_y);
    }

    /// Paints operations clipped to the header band.
    pub fn draw_header_band(&mut self, ops: &Vec<Op>)
        requires
            old(self).wf(),
            all_drawable(draws(ops@), 0, 0),
        ensures
            final(self).wf(),
            final(self)@.shown == old(self)@.shown,
            final(self)@.back == paint_all(old(self)@.back, draws(ops@), header_rows(), 0, 0),
    {
        self.draw_all(ops, 0, HEADER_H, 0, 0);
    }

    /// Paints operations anywhere on the panel.
    pub fn draw_panel(&mut self, ops: &Vec<Op>)
        requires
            old(self).wf(),
            all_drawable(draws(ops@), 0, 0),
        ensures
            final(self).wf(),
            final(self)@.shown == old(self)@.shown,
            final(self)@.back == paint_all(old(self)@.back, draws(ops@), whole_panel(), 0, 0),
            forall|i: int|
                0 <= i < PIXELS && spared(draws(ops@), 0, 0, i) ==> #[trigger] final(self)@.back[i]
                    == old(self)@.back[i],
    {
        self.draw_all(ops, 0, HEIGHT as i32, 0, 0);
    }

    /// Fills full-width rows.
    fn fill_band(&mut self, top: usize, bottom: usize, color: u16)
        requires
            old(self).wf(),
            top <= bottom <= 80,
        ensures
            final(self).wf(),
            final(self)@.shown == old(self)@.shown,
            final(self)@.back == fill_rows(old(self)@.back, top as int, bottom as int, color),
    {
        let ghost was = self@.back;
        self.fill_cells(top, bottom, 0, 160, color);
        assert(self@.back =~= fill_rows(was, top as int, bottom as int, color));
    }

    /// Blackens the header band.
    pub fn clear_header(&mut self)
        requires
            old(self).wf(),
        ensures
            final(self).wf(),
            final(self)@.shown == old(self)@.shown,
            final(self)@.back == fill_rows(old(self)@.back, 0, HEADER_H as int, BLACK),
    {
        self.fill_band(0, HEADER_H as usize, BLACK);
    }

    /// Blackens the page area.
    pub fn clear_page_area(&mut self)
        requires
            old(self).wf(),
        ensures
            final(self).wf(),
            final(self)@.shown == old(self)@.shown,
            final(self)@.back == fill_rows(old(self)@.back, PAGE_TOP as int, 80, BLACK),
    {
        self.fill_band(PAGE_TOP as usize, HEIGHT as usize, BLACK);
    }

    /// Draws the blue divider bar under the header.
    pub fn draw_divider(&mut self)
        requires
            old(self).wf(),
        ensures
            final(self).wf(),
            final(self)@.shown == old(self)@.shown,
            final(self)@.back == fill_rows(
                old(self)@.back,
                DIVIDER_Y as int,
                DIVIDER_Y + DIVIDER_H,
                BLUE,
            ),
    {
        self.fill_band(DIVIDER_Y as usize, DIVIDER_Y as usize + DIVIDER_H as usize, BLUE);
    }

    fn row_dirty(&self, y: usize) -> (r: bool)
        requires
            self.wf(),
            y < 80,
        ensures
            r == self@.dirty(y as int),
    {
        let mut i: usize = y * 160;
        let end: usize = y * 160 + 160;
        while i < end
            invariant
                self.wf(),
                y < 80,
                y * 160 <= i <= end,
                end == y * 160 + 160,
                forall|j: int| y * 160 <= j < i ==> self.shown@[j] == Some(self.back@[j]),
            decreases end - i,
        {
            let same = match self.shown[i] {
                Some(p) => p == self.back[i],
                None => false,
            };
            if !same {
                proof {
                    let a = row(known(self@.back), y as int);
                    let b = row(self@.shown, y as int);
                    assert(a[i - y * 160] != b[i - y * 160]);
                }
                return true;
            }
            i = i + 1;
        }
        assert(row(known(self@.back), y as int) =~= row(self@.shown, y as int));
        false
    }

    /// The bands to send, top to bottom: every run of rows that are not known
    /// to be on the panel, as one full-width block. Send each, and commit
    /// it once it has arrived; what could not be sent stays dirty.
    pub fn flush(&self) -> (r: Vec<Band>)
        requires
            self.wf(),
        ensures
            r@ == self@.bands(80),
    {
        let mut r: Vec<Band> = Vec::new();
        let mut y: usize = 0;
        let mut open = false;
        while y < 80
            invariant
                self.wf(),
                y <= 80,
                r@ == self@.bands(y as nat),
                open == (y > 0 && self@.dirty(y - 1)),
                open ==> r@.len() > 0,
                r@.len() > 0 ==> r@.last().start + r@.last().rows <= y,
            decreases 80 - y,
        {
            if self.row_dirty(y) {
                if open {
                    if let Some(last) = r.pop() {
                        r.push(Band { start: last.start, rows: last.rows + 1 });
                    }
                } else {
                    r.push(Band { start: y as u16, rows: 1 });
                }
                open = true;
            } else {
                open = false;
            }
            y = y + 1;
        }
        r
    }

    /// The pixels of a band.
    pub fn band_pixels(&self, band: Band) -> (r: &[u16])
        requires
            self.wf(),
            band.start + band.rows <= 80,
        ensures
            r@ == self@.back.subrange(band.start * 160, (band.start + band.rows) * 160),
    {
        slice_subrange(
            self.back.as_slice(),
            band.start as usize * 160,
            (band.start as usize + band.rows as usize) * 160,
        )
    }

    /// Records that a band has reached the panel.
    pub fn commit(&mut self, band: Band)
        requires
            old(self).wf(),
            band.start + band.rows <= 80,
        ensures
            final(self).wf(),
            final(self)@ == old(self)@.after(band),
    {
        let ghost was = self@;
        let mut i: usize = band.start as usize * 160;
        let end: usize = (band.start as usize + band.rows as usize) * 160;
        while i < end
            invariant
                band.start + band.rows <= 80,
                band.start * 160 <= i <= end,
                end == (band.start + band.rows) * 160,
                self.back@ == was.back,
                self.back@.len() == PIXELS,
                self.shown@.len() == PIXELS,
                forall|j: int|
                    0 <= j < PIXELS ==> #[trigger] self.shown@[j] == (if band.start * 160 <= j < i {
                        Some(was.back[j])
                    } else {
                        was.shown[j]
                    }),
            decreases end - i,
        {
            let p: u16 = self.back[i];
            self.shown.set(i, Some(p));
            i = i + 1;
        }
        assert(self@.shown =~= was.after(band).shown);
    }
}

fn within(v: i64, low: i64, high: i64) -> (r: i64)
    requires
        low <= high,
    ensures
        r == (if v < low {
            low
        } else if v > high {
            high
        } else {
            v
        }),
{
    if v < low {
        low
    } else if v > high {
        high
    } else {
        v
    }
}

} // verus!
