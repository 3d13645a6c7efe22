//! The header: its pages fit the panel, and they turn only when they may.

use vstd::prelude::*;

use crate::font::{lemma_medium_width, width_of, Font};
use crate::framebuffer::Draw;
use crate::header::{
    header_pages, lemma_header_pages_fit, HeaderMode, HeaderView, Phase,
};
use crate::panel::{HEADER_H, WIDTH};

verus! {

/// Every page of a header text fits the panel's width.
pub proof fn law_header_pages_fit_the_panel(text: Seq<char>)
    ensures
        forall|i: int|
            0 <= i < header_pages(text).len() ==> width_of(
                Font::Medium,
                #[trigger] header_pages(text)[i],
            ) <= WIDTH,
{
    lemma_header_pages_fit(text);
    assert forall|i: int| 0 <= i < header_pages(text).len() implies width_of(
        Font::Medium,
        #[trigger] header_pages(text)[i],
    ) <= WIDTH by {
        lemma_medium_width(header_pages(text)[i]);
    }
}

/// The state of a header after any frame is sound again.
pub proof fn law_header_stays_sound(h: HeaderView, busy: bool, now: int)
    requires
        h.wf(),
        0 <= now,
        now + h.hold <= u128::MAX,
    ensures
        h.frame(busy, now).next.wf(),
{
    lemma_medium_width(h.text);
    let n = h.pages.len() as int;
    if n > 0 {
        vstd::arithmetic::div_mod::lemma_mod_bound(h.page + 1, n);
    }
    vstd::arithmetic::div_mod::lemma_mod_bound(h.offset + 1, h.span());
}

/// In sync mode the header turns its page only after a trigger.
pub proof fn law_sync_turns_only_when_triggered(h: HeaderView, busy: bool, now: int)
    requires
        h.wf(),
        h.sync,
        h.phase is Hold,
        !h.armed,
    ensures
        h.frame(busy, now).next.page == h.page,
        h.frame(busy, now).next.phase == h.phase,
{
}

/// A trigger counts once: the next frame uses it up, whatever that frame
/// does.
pub proof fn law_triggers_are_used_up(h: HeaderView, busy: bool, now: int)
    requires
        h.wf(),
    ensures
        !h.frame(busy, now).next.armed,
{
}

/// In sync mode, a trigger that comes when the page's time is over turns it,
/// also while the bus is busy.
pub proof fn law_sync_turns_on_the_trigger(h: HeaderView, busy: bool, now: int)
    requires
        h.wf(),
        h.sync,
        h.armed,
        h.pages.len() > 1,
        h.mode != HeaderMode::Slide,
        h.due(now),
    ensures
        h.mode == HeaderMode::Cut ==> h.frame(busy, now).next.page == h.next_page(),
        h.mode != HeaderMode::Cut ==> h.frame(busy, now).next.phase == (Phase::Wipe {
            progress: 0,
        }),
{
}

/// A page stays up for its whole time: before its deadline it does not turn,
/// whatever happens.
pub proof fn law_pages_are_held(h: HeaderView, busy: bool, now: int)
    requires
        h.wf(),
        h.phase matches Phase::Hold { deadline } && now < deadline,
    ensures
        h.frame(busy, now).next.page == h.page,
        h.frame(busy, now).next.phase == h.phase,
{
}

/// Outside sync mode no page turns while the bus is busy.
pub proof fn law_busy_bus_holds_the_page(h: HeaderView, now: int)
    requires
        h.wf(),
        !h.sync,
        h.phase is Hold,
    ensures
        h.frame(true, now).next.page == h.page,
        h.frame(true, now).next.phase == h.phase,
{
}

/// In every mode a frame reports a change exactly when the band shows
/// something else than after the frame before it.
pub proof fn law_changes_are_reported(
    h: HeaderView,
    busy: bool,
    now: int,
    busy_next: bool,
    now_next: int,
)
    ensures
        h.frame(busy, now).next.frame(busy_next, now_next).changed <==> h.frame(
            busy,
            now,
        ).next.frame(busy_next, now_next).shows != h.frame(busy, now).shows,
{
}

/// A new text color is a change of its own.
pub proof fn law_new_colors_are_changes(h: HeaderView, color: u16, busy: bool, now: int)
    requires
        h.wf(),
        h.last.len() > 0,
        h.last[0] matches Draw::Text { color: c, .. } && c != color,
    ensures
        (HeaderView { color, ..h }).frame(busy, now).changed,
{
    let f = (HeaderView { color, ..h }).frame(busy, now);
    assert(f.shows.len() > 0);
    assert(f.shows[0] matches Draw::Text { color: c, .. } && c == color);
}

/// What a frame shows in the band is what it draws, but for the page that a
/// wipe has not moved yet: its line lies outside the band.
pub proof fn law_what_is_not_shown_is_outside(h: HeaderView, busy: bool, now: int, i: int)
    requires
        h.wf(),
        0 <= i < HEADER_H * 160,
    ensures
        h.frame(busy, now).shows == h.frame(busy, now).ops || {
            &&& h.frame(busy, now).ops.len() == 2
            &&& h.frame(busy, now).shows == seq![h.frame(busy, now).ops[0]]
            &&& !h.frame(busy, now).ops[1].boxes(0, 0, i)
        },
{
    let f = h.frame(busy, now);
    if h.mode != HeaderMode::Slide && h.pages.len() > 1 && h.phase == (Phase::Wipe {
        progress: 0,
    }) {
        let (dx, dy) = h.mode.direction();
        let l = h.mode.limit();
        let old = h.pages[h.page];
        let new = h.pages[h.next_page()];
        lemma_header_pages_fit(h.text);
        vstd::arithmetic::div_mod::lemma_mod_bound(h.page + 1, h.pages.len() as int);
        lemma_medium_width(new);
        assert(dx * 0 == 0 && dy * 0 == 0);
        assert(0 * (0 - l) == 0 && 1 * (0 - l) == -l && (-1) * (0 - l) == l) by (nonlinear_arith);
        assert(f.shows =~= seq![f.ops[0]]);
        assert(0 <= i / 160 < 15 && 0 <= i % 160 < 160);
    }
}

/// Every frame behind a frame of a wipe is a change: the pages move on, or
/// the new page comes to rest.
pub proof fn law_wipes_change_the_band(
    h: HeaderView,
    busy: bool,
    now: int,
    busy_next: bool,
    now_next: int,
)
    requires
        h.wf(),
        h.pages.len() > 1,
        h.phase is Wipe,
    ensures
        h.frame(busy, now).next.frame(busy_next, now_next).changed,
{
    let f = h.frame(busy, now);
    let g = f.next.frame(busy_next, now_next);
    let p = h.phase->progress as int;
    let q = p + h.mode.step();
    let (dx, dy) = h.mode.direction();
    assert(0 * p == 0 && 1 * p == p && (-1) * p == -p) by (nonlinear_arith);
    assert(0 * q == 0 && 1 * q == q && (-1) * q == -q) by (nonlinear_arith);
    if q < h.mode.limit() {
        assert(g.shows.len() == 2);
        assert(g.shows[0] != f.shows[0]);
    } else {
        assert(g.shows.len() == 1);
        assert(f.shows.len() == 2);
    }
}

/// Every frame of a marquee is a change.
pub proof fn law_marquees_change_the_band(
    h: HeaderView,
    busy: bool,
    now: int,
    busy_next: bool,
    now_next: int,
)
    requires
        h.wf(),
        h.mode == HeaderMode::Slide,
        h.scrolling(),
    ensures
        h.frame(busy, now).next.frame(busy_next, now_next).changed,
{
    lemma_medium_width(h.text);
    let s = h.span();
    let o = h.offset;
    if o + 1 < s {
        vstd::arithmetic::div_mod::lemma_small_mod((o + 1) as nat, s as nat);
    } else {
        vstd::arithmetic::div_mod::lemma_mod_self_0(s);
    }
    let f = h.frame(busy, now);
    let g = f.next.frame(busy_next, now_next);
    assert(g.shows[0] != f.shows[0]);
}

/// Nothing is a change while a page is held in one color.
pub proof fn law_held_pages_do_not_change(
    h: HeaderView,
    busy: bool,
    now: int,
    busy_next: bool,
    now_next: int,
)
    requires
        h.wf(),
        h.mode != HeaderMode::Slide,
        h.frame(busy, now).next.phase matches Phase::Hold { deadline } && now_next < deadline,
        h.phase is Hold,
    ensures
        !h.frame(busy, now).next.frame(busy_next, now_next).changed,
{
    let f = h.frame(busy, now);
    let g = f.next.frame(busy_next, now_next);
    assert(g.shows =~= f.shows);
}

/// The header after `n` more frames of a marquee.
pub open spec fn slid(h: HeaderView, n: nat) -> HeaderView
    decreases n,
{
    if n == 0 {
        h
    } else {
        slid(h, (n - 1) as nat).slide_frame().next
    }
}

proof fn lemma_slid(h: HeaderView, n: nat)
    requires
        h.wf(),
        h.scrolling(),
    ensures
        slid(h, n) == (HeaderView { offset: (h.offset + n) % h.span(), ..h }),
    decreases n,
{
    lemma_medium_width(h.text);
    let s = h.span();
    if n == 0 {
        vstd::arithmetic::div_mod::lemma_small_mod(h.offset as nat, s as nat);
    } else {
        lemma_slid(h, (n - 1) as nat);
        let before = h.offset + n - 1;
        vstd::arithmetic::div_mod::lemma_add_mod_noop_right(1, before, s);
        assert((before % s + 1) % s == (before + 1) % s);
        assert(slid(h, (n - 1) as nat).span() == s);
    }
}

/// The marquee moves by one pixel a frame and starts over after the length
/// of the text and the gap behind it.
pub proof fn law_marquee_starts_over(h: HeaderView)
    requires
        h.wf(),
        h.scrolling(),
    ensures
        slid(h, h.span() as nat) == h,
        h.offset + 1 < h.span() ==> slid(h, 1).offset == h.offset + 1,
{
    lemma_medium_width(h.text);
    let s = h.span();
    lemma_slid(h, s as nat);
    lemma_slid(h, 1);
    vstd::arithmetic::div_mod::lemma_mod_add_multiples_vanish(h.offset, s);
    vstd::arithmetic::div_mod::lemma_small_mod(h.offset as nat, s as nat);
    if h.offset + 1 < s {
        vstd::arithmetic::div_mod::lemma_small_mod((h.offset + 1) as nat, s as nat);
    }
}

/// Frames that a wipe still takes.
pub open spec fn frames_left(h: HeaderView) -> int {
    match h.phase {
        Phase::Wipe { progress } => if h.mode.direction().0 != 0 {
            (WIDTH - progress + 15) / 16
        } else {
            (HEADER_H - progress + 2) / 3
        },
        Phase::Hold { .. } => 0,
    }
}

/// A wipe goes on to its end, whatever happens meanwhile: each frame brings
/// it one frame nearer, and behind the last one the next page is up.
pub proof fn law_wipes_end(h: HeaderView, busy: bool, now: int)
    requires
        h.wf(),
        h.pages.len() > 1,
        h.phase is Wipe,
    ensures
        frames_left(h) >= 1,
        frames_left(h) == 1 ==> {
            &&& h.frame(busy, now).next.page == h.next_page()
            &&& h.frame(busy, now).next.phase is Hold
        },
        frames_left(h) > 1 ==> {
            &&& h.frame(busy, now).next.page == h.page
            &&& frames_left(h.frame(busy, now).next) == frames_left(h) - 1
        },
{
}

/// A wipe takes ten frames sideways and five up or down, behind the frame
/// that starts it.
pub proof fn law_length_of_wipes(h: HeaderView)
    requires
        h.wf(),
        h.phase == (Phase::Wipe { progress: 0 }),
    ensures
        frames_left(h) == if h.mode.direction().0 != 0 {
            10int
        } else {
            5
        },
{
}

} // verus!
