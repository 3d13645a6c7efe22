//! The parts of the screen: pages keep to their area, and showing the same
//! page again changes nothing.

use vstd::prelude::*;

use crate::font::{text_mask, width_of, Font};
use crate::framebuffer::{known, lemma_clipped, page_rows, paint_all, Draw, Frames, Rows};
use crate::panel::{DIVIDER_H, DIVIDER_Y, PAGE_TOP, PIXELS};
use crate::rotation::{blank_page, exit_text, shift_at, with_page, PageMode, Shift};

verus! {

/// Drawing a page, at whatever offset, leaves the rows above the page area,
/// the header and the divider among them, as they are.
pub proof fn law_pages_stay_in_their_area(
    frame: Seq<u16>,
    page: Seq<Draw>,
    x: int,
    y: int,
    i: int,
)
    requires
        0 <= i < frame.len(),
        i / 160 < PAGE_TOP,
    ensures
        blank_page(frame)[i] == frame[i],
        with_page(frame, page, x, y)[i] == frame[i],
        with_page(blank_page(frame), page, x, y)[i] == frame[i],
        DIVIDER_Y + DIVIDER_H <= PAGE_TOP,
{
    lemma_clipped(frame, page, page_rows(), x, PAGE_TOP + y);
    lemma_clipped(blank_page(frame), page, page_rows(), x, PAGE_TOP + y);
}

proof fn lemma_same_paint(a: Seq<u16>, b: Seq<u16>, ds: Seq<Draw>, dx: int, dy: int)
    requires
        a.len() == b.len(),
        forall|i: int| 0 <= i < a.len() && i / 160 >= PAGE_TOP ==> #[trigger] a[i] == b[i],
    ensures
        paint_all(a, ds, page_rows(), dx, dy).len() == a.len(),
        paint_all(b, ds, page_rows(), dx, dy).len() == a.len(),
        forall|i: int|
            0 <= i < a.len() && i / 160 >= PAGE_TOP ==> #[trigger] paint_all(
                a,
                ds,
                page_rows(),
                dx,
                dy,
            )[i] == paint_all(b, ds, page_rows(), dx, dy)[i],
    decreases ds.len(),
{
    if ds.len() > 0 {
        lemma_same_paint(a, b, ds.drop_last(), dx, dy);
        let p = paint_all(a, ds.drop_last(), page_rows(), dx, dy);
        let q = paint_all(b, ds.drop_last(), page_rows(), dx, dy);
        assert forall|i: int| 0 <= i < a.len() && i / 160 >= PAGE_TOP implies #[trigger] paint_all(
            a,
            ds,
            page_rows(),
            dx,
            dy,
        )[i] == paint_all(b, ds, page_rows(), dx, dy)[i] by {
            assert(p[i] == q[i]);
        }
    }
}

/// What a page shows does not depend on what was in the page area before.
pub proof fn law_pages_start_blank(a: Seq<u16>, b: Seq<u16>, page: Seq<Draw>, i: int)
    requires
        a.len() == b.len(),
        0 <= i < a.len(),
        i / 160 >= PAGE_TOP,
        a.len() <= PIXELS,
    ensures
        with_page(blank_page(a), page, 0, 0)[i] == with_page(blank_page(b), page, 0, 0)[i],
{
    let (p, q) = (blank_page(a), blank_page(b));
    assert forall|k: int| 0 <= k < p.len() && k / 160 >= PAGE_TOP implies #[trigger] p[k]
        == q[k] by {
        assert(k / 160 < 80);
    }
    lemma_same_paint(p, q, page, 0, PAGE_TOP as int);
}

/// A page whose content has not changed leaves the frame as it is when it is
/// drawn again, so that it costs nothing to flush.
pub proof fn law_same_page_changes_nothing(frame: Seq<u16>, page: Seq<Draw>)
    requires
        frame.len() == PIXELS,
    ensures
        ({
            let once = with_page(blank_page(frame), page, 0, 0);
            with_page(blank_page(once), page, 0, 0) == once
        }),
        ({
            let once = with_page(blank_page(frame), page, 0, 0);
            let twice = with_page(blank_page(once), page, 0, 0);
            (Frames { back: twice, shown: known(once) }).bands(80).len() == 0
        }),
{
    let once = with_page(blank_page(frame), page, 0, 0);
    let twice = with_page(blank_page(once), page, 0, 0);
    lemma_clipped(blank_page(frame), page, page_rows(), 0, PAGE_TOP as int);
    lemma_clipped(blank_page(once), page, page_rows(), 0, PAGE_TOP as int);
    assert forall|i: int| 0 <= i < PIXELS implies #[trigger] twice[i] == once[i] by {
        if i / 160 < PAGE_TOP {
            law_pages_stay_in_their_area(frame, page, 0, 0, i);
            law_pages_stay_in_their_area(once, page, 0, 0, i);
        } else {
            law_pages_start_blank(once, frame, page, i);
        }
    }
    assert(twice =~= once);
    super::flush::law_unchanged_frames_cost_nothing(Frames { back: twice, shown: known(once) });
}

/// The two pages of a wipe lie side by side: the page that comes is exactly
/// one page-size behind the one that leaves, against the direction of
/// motion, and both are less than a page-size away from their place.
pub proof fn law_wiped_pages_lie_side_by_side(mode: PageMode, progress: int)
    requires
        0 < progress < mode.limit(),
    ensures
        ({
            let s = shift_at(mode, progress);
            let (dx, dy) = mode.direction();
            &&& s.out_x - s.in_x == dx * mode.limit()
            &&& s.out_y - s.in_y == dy * mode.limit()
            &&& s.out_x == dx * progress
            &&& s.out_y == dy * progress
            &&& -mode.limit() < s.out_x < mode.limit()
            &&& -mode.limit() < s.out_y < mode.limit()
            &&& -mode.limit() < s.in_x < mode.limit()
            &&& -mode.limit() < s.in_y < mode.limit()
        }),
{
    let (l, p) = (mode.limit(), progress);
    assert(0 * p == 0 && 1 * p == p && (-1) * p == -p) by (nonlinear_arith);
    assert(0 * (p - l) == 0 && 1 * (p - l) == p - l && (-1) * (p - l) == l - p)
        by (nonlinear_arith);
    assert(0 * l == 0 && 1 * l == l && (-1) * l == -l) by (nonlinear_arith);
}

/// The page that leaves moves in the direction of its mode, and the one that
/// comes follows from the other side: from the bottom when wiping up, from the
/// top when wiping down, from the right when wiping left, from the left when
/// wiping right.
pub proof fn law_directions_of_page_wipes(p: int)
    requires
        0 < p < 160,
    ensures
        p < 61 ==> shift_at(PageMode::WipeUp, p) == (Shift {
            out_x: 0,
            out_y: -p as i32,
            in_x: 0,
            in_y: (61 - p) as i32,
        }),
        p < 61 ==> shift_at(PageMode::WipeDown, p) == (Shift {
            out_x: 0,
            out_y: p as i32,
            in_x: 0,
            in_y: (p - 61) as i32,
        }),
        shift_at(PageMode::WipeLeft, p) == (Shift {
            out_x: -p as i32,
            out_y: 0,
            in_x: (160 - p) as i32,
            in_y: 0,
        }),
        shift_at(PageMode::WipeRight, p) == (Shift {
            out_x: p as i32,
            out_y: 0,
            in_x: (p - 160) as i32,
            in_y: 0,
        }),
{
    assert(0 * p == 0 && 1 * p == p && (-1) * p == -p) by (nonlinear_arith);
    assert(0 * (p - 61) == 0 && 1 * (p - 61) == p - 61 && (-1) * (p - 61) == 61 - p)
        by (nonlinear_arith);
    assert(0 * (p - 160) == 0 && 1 * (p - 160) == p - 160 && (-1) * (p - 160) == 160 - p)
        by (nonlinear_arith);
}

/// A filled rectangle paints exactly the pixels in it; text paints exactly
/// those that its glyphs light. Both move with the offset.
pub proof fn law_what_operations_cover(d: Draw, dx: int, dy: int, px: int, py: int)
    requires
        0 <= px < 160,
        0 <= py < 80,
    ensures
        d matches Draw::Fill { x, y, w, h, .. } ==> (d.covers(dx, dy, py * 160 + px) <==> x + dx
            <= px < x + dx + w && y + dy <= py < y + dy + h),
        d matches Draw::Text { font, text, x, y, .. } ==> (d.covers(dx, dy, py * 160 + px)
            <==> text_mask(font, text, x + dx, y + dy)[py * 160 + px] != 0),
{
    assert((py * 160 + px) / 160 == py && (py * 160 + px) % 160 == px);
}

/// Each operation paints over those before it: a pixel has the color of the
/// last one that covers it in the rows that may be painted, and keeps its own
/// where none does.
pub proof fn law_last_operation_is_on_top(
    frame: Seq<u16>,
    ds: Seq<Draw>,
    rows: Rows,
    dx: int,
    dy: int,
    i: int,
    k: int,
)
    requires
        0 <= i < frame.len(),
    ensures
        paint_all(frame, ds, rows, dx, dy).len() == frame.len(),
        rows.top <= i / 160 < rows.bottom && 0 <= k < ds.len() && ds[k].covers(dx, dy, i) && (
        forall|j: int| k < j < ds.len() ==> !(#[trigger] ds[j]).covers(dx, dy, i)) ==> paint_all(
            frame,
            ds,
            rows,
            dx,
            dy,
        )[i] == ds[k].color(),
        (forall|j: int| 0 <= j < ds.len() ==> !(#[trigger] ds[j]).covers(dx, dy, i)) || !(rows.top
            <= i / 160 < rows.bottom) ==> paint_all(frame, ds, rows, dx, dy)[i] == frame[i],
    decreases ds.len(),
{
    if ds.len() > 0 {
        let t = ds.drop_last();
        let n = ds.len() - 1;
        law_last_operation_is_on_top(frame, t, rows, dx, dy, i, k);
        if rows.top <= i / 160 < rows.bottom && 0 <= k < ds.len() && ds[k].covers(dx, dy, i) && (
        forall|j: int| k < j < ds.len() ==> !(#[trigger] ds[j]).covers(dx, dy, i)) {
            if k < n {
                assert(!ds[n].covers(dx, dy, i));
                assert(t[k] == ds[k]);
                assert forall|j: int| k < j < t.len() implies !(#[trigger] t[j]).covers(
                    dx,
                    dy,
                    i,
                ) by {
                    assert(t[j] == ds[j]);
                }
            }
        }
        if forall|j: int| 0 <= j < ds.len() ==> !(#[trigger] ds[j]).covers(dx, dy, i) {
            assert(!ds[n].covers(dx, dy, i));
            assert forall|j: int| 0 <= j < t.len() implies !(#[trigger] t[j]).covers(dx, dy, i) by {
                assert(t[j] == ds[j]);
            }
        }
    }
}

/// An operation paints its own color.
pub proof fn law_operations_paint_their_color(d: Draw)
    ensures
        d matches Draw::Fill { color, .. } ==> d.color() == color,
        d matches Draw::Text { color, .. } ==> d.color() == color,
{
}

/// A page at rest starts right below the divider: its first row is row 19 of
/// the panel, and it is clipped to the rows from there to the bottom. Before
/// it is drawn, these rows are black.
pub proof fn law_pages_start_below_the_divider(frame: Seq<u16>, page: Seq<Draw>, i: int)
    requires
        frame.len() == PIXELS,
        0 <= i < PIXELS,
    ensures
        with_page(frame, page, 0, 0) == paint_all(frame, page, Rows { top: 19, bottom: 80 }, 0, 19),
        i / 160 >= 19 ==> blank_page(frame)[i] == 0,
{
    assert(i / 160 < 80);
}

/// The message of an exit screen stands in the middle, in cells of ten pixels
/// with as much room on its left as on its right, up to one pixel; a wider one
/// starts at the left edge.
pub proof fn law_exit_screens_are_centered(text: Seq<char>, color: u16)
    ensures
        exit_text(text, color) matches Draw::Text { font, text: t, x, y, color: c } && {
            &&& font == Font::Large
            &&& t == text
            &&& y == 30
            &&& c == color
            &&& 10 * text.len() <= 160 ==> 0 <= (160 - x - 10 * text.len()) - x <= 1
            &&& 10 * text.len() > 160 ==> x == 0
        },
{
    assert(width_of(Font::Large, text) == text.len() * 10);
}

} // verus!
