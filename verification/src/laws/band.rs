//! The header band: what each mode draws there, where, and when it turns to
//! the next page.

use vstd::prelude::*;

use crate::font::{lemma_medium_width, Font};
use crate::framebuffer::Draw;
use crate::header::{HeaderAlign, HeaderMode, HeaderView, Phase};

verus! {

/// A line of the header at a point.
pub open spec fn text_at(h: HeaderView, text: Seq<char>, x: int, y: int) -> Draw {
    Draw::Text { font: Font::Medium, text, x, y, color: h.color }
}

/// Where a text sits that fits the panel, in cells of nine pixels: at the left
/// edge, flush with the right one, or with as much room on its left as on its
/// right, up to one pixel; a wider one starts at the left edge.
pub proof fn law_alignment(h: HeaderView, text: Seq<char>)
    ensures
        h.align == HeaderAlign::Left ==> h.left_edge(text) == 0,
        h.align == HeaderAlign::Right && 9 * text.len() <= 160 ==> h.left_edge(text) + 9
            * text.len() == 160,
        h.align == HeaderAlign::Center && 9 * text.len() <= 160 ==> 0 <= (160 - h.left_edge(text)
            - 9 * text.len()) - h.left_edge(text) <= 1,
        9 * text.len() > 160 ==> h.left_edge(text) == 0,
{
    lemma_medium_width(text);
}

/// The header turns to the next page, and behind the last to the first.
pub proof fn law_pages_turn_in_order(h: HeaderView)
    requires
        h.wf(),
        h.pages.len() > 0,
    ensures
        h.page + 1 < h.pages.len() ==> h.next_page() == h.page + 1,
        h.page + 1 == h.pages.len() ==> h.next_page() == 0,
{
    let n = h.pages.len() as int;
    if h.page + 1 < n {
        vstd::arithmetic::div_mod::lemma_small_mod((h.page + 1) as nat, n as nat);
    } else {
        vstd::arithmetic::div_mod::lemma_mod_self_0(n);
    }
}

/// A page's time is over from its deadline on, not before.
pub proof fn law_a_pages_time(h: HeaderView, deadline: u128, now: int)
    requires
        h.phase == (Phase::Hold { deadline }),
    ensures
        h.due(now) <==> now >= deadline,
        !h.sync ==> (h.may_turn(true, now) <==> false) && (h.may_turn(false, now) <==> now
            >= deadline),
        h.sync ==> (h.may_turn(true, now) <==> h.armed && now >= deadline) && (h.may_turn(
            false,
            now,
        ) <==> h.armed && now >= deadline),
{
}

/// Text that fits one page, and any text of a marquee that fits the panel, is
/// drawn as it is, at its place, frame after frame.
pub proof fn law_short_text_sits_still(h: HeaderView, busy: bool, now: int)
    requires
        h.wf(),
        (h.mode != HeaderMode::Slide && h.pages.len() <= 1) || (h.mode == HeaderMode::Slide && 9
            * h.text.len() <= 160),
    ensures
        h.frame(busy, now).ops == seq![text_at(h, h.text, h.left_edge(h.text), 0)],
        h.frame(busy, now).next.page == h.page,
        h.frame(busy, now).next.offset == h.offset,
        h.frame(busy, now).next.phase == h.phase,
{
    lemma_medium_width(h.text);
}

/// In cut mode a page is swapped for the next one at once when it may turn,
/// and the new one gets its whole time; otherwise it stays. What is drawn is
/// the page that is up then, at its place.
pub proof fn law_cuts_swap_pages_at_once(h: HeaderView, busy: bool, now: int)
    requires
        h.wf(),
        h.mode == HeaderMode::Cut,
        h.pages.len() > 1,
        0 <= now,
        now + h.hold <= u128::MAX,
        0 <= h.hold,
    ensures
        ({
            let f = h.frame(busy, now);
            &&& h.may_turn(busy, now) ==> f.next.page == h.next_page() && f.next.phase == (
            Phase::Hold { deadline: (now + h.hold) as u128 })
            &&& !h.may_turn(busy, now) ==> f.next.page == h.page && f.next.phase == h.phase
            &&& f.ops == seq![
                text_at(h, h.pages[f.next.page], h.left_edge(h.pages[f.next.page]), 0),
            ]
            &&& f.next.pages == h.pages && f.next.text == h.text
        }),
{
}

/// In a wipe mode the page that is held is drawn at its place, and a wipe
/// starts exactly when it may turn.
pub proof fn law_wipes_start_when_due(h: HeaderView, busy: bool, now: int)
    requires
        h.wf(),
        h.mode != HeaderMode::Cut,
        h.mode != HeaderMode::Slide,
        h.pages.len() > 1,
        h.phase is Hold,
    ensures
        ({
            let f = h.frame(busy, now);
            &&& f.next.page == h.page
            &&& h.may_turn(busy, now) ==> f.next.phase == (Phase::Wipe { progress: 0 })
            &&& !h.may_turn(busy, now) ==> f.next.phase == h.phase
            &&& f.ops == seq![text_at(h, h.pages[h.page], h.left_edge(h.pages[h.page]), 0)]
        }),
{
}

/// During a wipe the old page moves out and the next one follows one band's
/// size behind it: upward, with the next page from the bottom; downward, from
/// the top; to the left, from the right; to the right, from the left. It moves
/// on by three pixels a frame up or down, by sixteen sideways, and nothing is
/// drawn outside the band.
pub proof fn law_wipes_move_both_pages(h: HeaderView, busy: bool, now: int, p: int)
    requires
        h.wf(),
        h.pages.len() > 1,
        h.phase is Wipe,
        p == h.phase->progress,
    ensures
        ({
            let f = h.frame(busy, now);
            let (old, new) = (h.pages[h.page], h.pages[h.next_page()]);
            let (a, b) = (h.left_edge(old), h.left_edge(new));
            &&& f.clipped
            &&& h.mode == HeaderMode::WipeUp ==> f.ops == seq![
                text_at(h, old, a, -p),
                text_at(h, new, b, 15 - p),
            ]
            &&& h.mode == HeaderMode::WipeDown ==> f.ops == seq![
                text_at(h, old, a, p),
                text_at(h, new, b, p - 15),
            ]
            &&& h.mode == HeaderMode::WipeLeft ==> f.ops == seq![
                text_at(h, old, a - p, 0),
                text_at(h, new, b + 160 - p, 0),
            ]
            &&& h.mode == HeaderMode::WipeRight ==> f.ops == seq![
                text_at(h, old, a + p, 0),
                text_at(h, new, b + p - 160, 0),
            ]
            &&& h.mode == HeaderMode::WipeUp || h.mode == HeaderMode::WipeDown ==> (if p + 3 < 15 {
                f.next.phase == (Phase::Wipe { progress: (p + 3) as i32 }) && f.next.page == h.page
            } else {
                f.next.phase == (Phase::Hold { deadline: (now + h.hold) as u128 }) && f.next.page
                    == h.next_page()
            })
            &&& h.mode == HeaderMode::WipeLeft || h.mode == HeaderMode::WipeRight ==> (if p + 16
                < 160 {
                f.next.phase == (Phase::Wipe { progress: (p + 16) as i32 }) && f.next.page == h.page
            } else {
                f.next.phase == (Phase::Hold { deadline: (now + h.hold) as u128 }) && f.next.page
                    == h.next_page()
            })
        }),
{
    let f = h.frame(busy, now);
    let l = h.mode.limit();
    assert(0 * p == 0 && 1 * p == p && (-1) * p == -p) by (nonlinear_arith);
    assert(0 * (p - l) == 0 && 1 * (p - l) == p - l && (-1) * (p - l) == l - p)
        by (nonlinear_arith);
    assert(f.ops.len() == 2);
}

/// A marquee draws its text twice, the second time behind the first and a gap
/// of 24 pixels, and moves both to the left by one pixel a frame until the
/// second stands where the first began.
pub proof fn law_marquees_move_to_the_left(h: HeaderView, busy: bool, now: int)
    requires
        h.wf(),
        h.mode == HeaderMode::Slide,
        9 * h.text.len() > 160,
    ensures
        ({
            let f = h.frame(busy, now);
            let o = h.offset;
            &&& f.ops == seq![
                text_at(h, h.text, -o, 0),
                text_at(h, h.text, 9 * h.text.len() + 24 - o, 0),
            ]
            &&& o + 1 < 9 * h.text.len() + 24 ==> f.next.offset == o + 1
            &&& o + 1 == 9 * h.text.len() + 24 ==> f.next.offset == 0
            &&& f.next.text == h.text
        }),
{
    lemma_medium_width(h.text);
    let s = h.span();
    if h.offset + 1 < s {
        vstd::arithmetic::div_mod::lemma_small_mod((h.offset + 1) as nat, s as nat);
    } else {
        vstd::arithmetic::div_mod::lemma_mod_self_0(s);
    }
    assert(h.frame(busy, now).ops =~= seq![
        text_at(h, h.text, -h.offset, 0),
        text_at(h, h.text, 9 * h.text.len() + 24 - h.offset, 0),
    ]);
}

/// What a frame does not touch: the text, how it is cut and shown, its color.
pub proof fn law_frames_keep_the_header(h: HeaderView, busy: bool, now: int)
    ensures
        ({
            let n = h.frame(busy, now).next;
            &&& n.text == h.text
            &&& n.pages == h.pages
            &&& n.mode == h.mode
            &&& n.align == h.align
            &&& n.hold == h.hold
            &&& n.color == h.color
            &&& n.sync == h.sync
            &&& n.last == h.frame(busy, now).shows
        }),
{
}

/// A new frame starts from a black band.
pub proof fn law_frames_start_from_a_black_band(
    h: HeaderView,
    back: Seq<u16>,
    busy: bool,
    now: int,
    i: int,
)
    requires
        back.len() == 12_800,
        0 <= i < 15 * 160,
        forall|k: int|
            0 <= k < h.frame(busy, now).ops.len() ==> !(#[trigger] h.frame(busy, now).ops[k]).covers(
                0,
                0,
                i,
            ),
    ensures
        h.drawn(back, busy, now)[i] == 0,
{
    let f = h.frame(busy, now);
    let black = crate::framebuffer::fill_rows(back, 0, 15, 0);
    let rows = if f.clipped {
        crate::framebuffer::header_rows()
    } else {
        crate::framebuffer::whole_panel()
    };
    assert(i / 160 < 15);
    lemma_uncovered(black, f.ops, rows, i);
}

proof fn lemma_uncovered(
    frame: Seq<u16>,
    ds: Seq<Draw>,
    rows: crate::framebuffer::Rows,
    i: int,
)
    requires
        0 <= i < frame.len(),
        forall|k: int| 0 <= k < ds.len() ==> !(#[trigger] ds[k]).covers(0, 0, i),
    ensures
        crate::framebuffer::paint_all(frame, ds, rows, 0, 0).len() == frame.len(),
        crate::framebuffer::paint_all(frame, ds, rows, 0, 0)[i] == frame[i],
    decreases ds.len(),
{
    if ds.len() > 0 {
        let t = ds.drop_last();
        assert forall|k: int| 0 <= k < t.len() implies !(#[trigger] t[k]).covers(0, 0, i) by {
            assert(t[k] == ds[k]);
        }
        lemma_uncovered(frame, t, rows, i);
        assert(!ds[ds.len() - 1].covers(0, 0, i));
    }
}

} // verus!
