//! The page rotation: pages come in order, none that wants to show is passed
//! over, and redraws keep their distance.

use vstd::prelude::*;

use crate::panel::{PAGE_HEIGHT, WIDTH};
use crate::rotation::{
    first_page, fresh_hold, page_after, wanted_from, PageKind, PageMode, RotationView, Stage,
};

verus! {

proof fn lemma_wanted(active: Seq<bool>, from: int, n: nat)
    requires
        active.len() > 0,
    ensures
        wanted_from(active, from, n) matches Some(i) ==> {
            &&& 0 <= i < active.len()
            &&& active[i]
            &&& exists|k: int|
                {
                    &&& 0 <= k < n
                    &&& i == #[trigger] (from + k) % active.len() as int
                    &&& forall|j: int|
                        0 <= j < k ==> !active[#[trigger] (from + j) % active.len() as int]
                }
        },
        wanted_from(active, from, n) is None ==> forall|j: int|
            0 <= j < n ==> !active[#[trigger] (from + j) % active.len() as int],
    decreases n,
{
    let len = active.len() as int;
    if n > 0 {
        vstd::arithmetic::div_mod::lemma_mod_bound(from, len);
        lemma_wanted(active, from + 1, (n - 1) as nat);
        if active[from % len] {
            assert((from + 0) % len == from % len);
        } else {
            match wanted_from(active, from + 1, (n - 1) as nat) {
                Some(i) => {
                    let k = choose|k: int|
                        {
                            &&& 0 <= k < n - 1
                            &&& i == #[trigger] (from + 1 + k) % len
                            &&& forall|j: int| 0 <= j < k ==> !active[#[trigger] (from + 1 + j) % len]
                        };
                    assert(i == (from + (k + 1)) % len);
                    assert forall|j: int| 0 <= j < k + 1 implies !active[#[trigger] (from + j)
                        % len] by {
                        if j > 0 {
                            assert((from + 1 + (j - 1)) % len == (from + j) % len);
                        }
                    }
                },
                None => {
                    assert forall|j: int| 0 <= j < n implies !active[#[trigger] (from + j)
                        % len] by {
                        if j > 0 {
                            assert((from + 1 + (j - 1)) % len == (from + j) % len);
                        }
                    }
                },
            }
        }
    }
}

/// The rotation starts on the first page that wants to show, if any does.
pub proof fn law_starts_on_the_first_wanted_page(active: Seq<bool>, i: int)
    requires
        0 <= i < active.len(),
        active[i],
    ensures
        0 <= first_page(active) <= i,
        active[first_page(active)],
        forall|j: int| 0 <= j < first_page(active) ==> !(#[trigger] active[j]),
{
    let len = active.len() as int;
    lemma_wanted(active, 0, active.len());
    assert forall|j: int| 0 <= j < len implies #[trigger] (0 + j) % len == j by {
        vstd::arithmetic::div_mod::lemma_small_mod(j as nat, len as nat);
    }
    match wanted_from(active, 0, active.len()) {
        Some(f) => {
            let k = choose|k: int|
                {
                    &&& 0 <= k < len
                    &&& f == #[trigger] (0 + k) % len
                    &&& forall|j: int| 0 <= j < k ==> !active[#[trigger] (0 + j) % len]
                };
            assert(f == k);
            assert forall|j: int| 0 <= j < f implies !(#[trigger] active[j]) by {
                assert((0 + j) % len == j);
            }
        },
        None => {
            assert((0 + i) % len == i);
        },
    }
}

/// The rotation never moves on to a page that does not want to show, and
/// stays on its page only if no other wants to.
pub proof fn law_moves_to_wanted_pages_only(active: Seq<bool>, current: int, i: int)
    requires
        0 <= current < active.len(),
        0 <= i < active.len(),
    ensures
        0 <= page_after(active, current) < active.len(),
        page_after(active, current) != current ==> active[page_after(active, current)],
        page_after(active, current) == current && i != current ==> !active[i],
{
    let len = active.len() as int;
    lemma_wanted(active, current + 1, (len - 1) as nat);
    if i != current {
        let j = if i > current {
            i - current - 1
        } else {
            i + len - current - 1
        };
        assert((current + 1 + j) % len == i) by {
            if i > current {
                vstd::arithmetic::div_mod::lemma_small_mod(i as nat, len as nat);
            } else {
                vstd::arithmetic::div_mod::lemma_mod_add_multiples_vanish(i, len);
                vstd::arithmetic::div_mod::lemma_small_mod(i as nat, len as nat);
            }
        }
        match wanted_from(active, current + 1, (len - 1) as nat) {
            Some(f) => {
                let k = choose|k: int|
                    {
                        &&& 0 <= k < len - 1
                        &&& f == #[trigger] (current + 1 + k) % len
                        &&& forall|j: int|
                            0 <= j < k ==> !active[#[trigger] (current + 1 + j) % len]
                    };
                lemma_not_back(current, k, len);
            },
            None => {},
        }
    }
}

proof fn lemma_not_back(current: int, k: int, len: int)
    requires
        0 <= current < len,
        0 <= k < len - 1,
    ensures
        (current + 1 + k) % len != current,
{
    if current + 1 + k < len {
        vstd::arithmetic::div_mod::lemma_small_mod((current + 1 + k) as nat, len as nat);
    } else {
        let r = current + 1 + k - len;
        vstd::arithmetic::div_mod::lemma_mod_add_multiples_vanish(r, len);
        vstd::arithmetic::div_mod::lemma_small_mod(r as nat, len as nat);
    }
}

/// While every page wants to show, the rotation goes through all of them in
/// order.
pub proof fn law_all_pages_in_order(active: Seq<bool>, current: int)
    requires
        0 <= current < active.len(),
        forall|i: int| 0 <= i < active.len() ==> #[trigger] active[i],
    ensures
        page_after(active, current) == (current + 1) % (active.len() as int),
{
    let len = active.len() as int;
    vstd::arithmetic::div_mod::lemma_mod_bound(current + 1, len);
    if len == 1 {
        assert((current + 1) % 1 == 0);
    } else {
        assert(active[(current + 1) % len]);
    }
}

/// Content is not drawn again before its refresh time is over.
pub proof fn law_redraws_keep_their_distance(
    r: RotationView,
    drawn_at: u128,
    changed: bool,
    now: u128,
)
    requires
        r.wf(),
        r.stage is Hold,
        drawn_at + r.refresh <= u128::MAX,
        r.refreshed(drawn_at).redraws(changed, now),
    ensures
        now >= drawn_at + r.refresh,
{
}

/// A redraw gives way to the header for one frame at most: one that is due
/// and not drawn is drawn in the next frame, even if the header changes
/// again.
pub proof fn law_redraws_wait_one_frame_at_most(
    r: RotationView,
    now: u128,
    flushed_at: u128,
    changed: bool,
    later: u128,
)
    requires
        r.wf(),
        r.due(now),
        !r.redraws(true, now),
        now <= later,
    ensures
        r.looked(true, now).flushed(flushed_at).redraws(changed, later),
{
}

/// A redraw waits only for a change of the header: without one it happens as
/// soon as it is due, and a new page is drawn in its first frame.
pub proof fn law_due_redraws_happen(r: RotationView, now: u128)
    requires
        r.wf(),
    ensures
        r.redraws(false, now) == r.due(now),
        r.stage == fresh_hold() ==> r.due(now),
{
}

/// A page is up for its whole time, counted from the first frame that has
/// reached the panel with the page on it: later frames do not move its end.
pub proof fn law_pages_stay_up(r: RotationView, first: u128, later: u128)
    requires
        r.wf(),
        r.drawn(),
        r.stage matches Stage::Hold { deadline: None, .. },
        first + r.hold <= u128::MAX,
    ensures
        r.flushed(first).ends(later) == first + r.hold,
        r.flushed(first).flushed(later) == r.flushed(first),
        r.flushed(first).over(later) <==> later >= first + r.hold,
{
}

/// A frame without the page on it does not start the page's time: while the
/// page waits to be drawn, frames leave the rotation as it is and never end
/// the page.
pub proof fn law_time_waits_for_the_page(r: RotationView, changed: bool, now: u128, later: u128)
    requires
        r.wf(),
        r.stage == fresh_hold(),
        !r.redraws(changed, now),
    ensures
        r.looked(changed, now).flushed(later) == r.looked(changed, now),
        !r.looked(changed, now).over(later),
{
}

/// Frames that a wipe still takes.
pub open spec fn frames_to_go(r: RotationView) -> int {
    match r.stage {
        Stage::Wipe { progress, .. } => if r.mode.direction().0 != 0 {
            (WIDTH - progress + 39) / 40
        } else {
            (PAGE_HEIGHT - progress + 13) / 14
        },
        Stage::Hold { .. } => 0,
    }
}

/// A wipe comes to its end: each frame brings it one frame nearer, and behind
/// the last one the next page is up and fresh.
pub proof fn law_page_wipes_end(r: RotationView)
    requires
        r.wf(),
        r.stage is Wipe,
    ensures
        r.stepped().wf(),
        frames_to_go(r) >= 1,
        frames_to_go(r) > 1 ==> frames_to_go(r.stepped()) == frames_to_go(r) - 1
            && r.stepped().current == r.current,
        frames_to_go(r) == 1 ==> r.stepped().stage == fresh_hold() && r.stepped().current
            == r.stage->next,
{
}

/// A page wipe takes three frames sideways and four up or down.
pub proof fn law_length_of_page_wipes(r: RotationView, active: Seq<bool>)
    requires
        r.wf(),
        active.len() == r.pages,
        r.moved_on(active).stage is Wipe,
    ensures
        frames_to_go(r.moved_on(active)) == if r.mode.direction().0 != 0 {
            3int
        } else {
            4
        },
        r.mode != PageMode::Cut,
{
}

/// The rotation moves on to the next page in order that wants to show: those
/// between the page that is up and that one, going round, do not.
pub proof fn law_no_wanted_page_is_passed_over(active: Seq<bool>, current: int, i: int)
    requires
        0 <= current < active.len(),
        0 <= i < active.len(),
        i != current,
        active[i],
    ensures
        ({
            let n = active.len() as int;
            let next = page_after(active, current);
            let steps = |p: int|
                if p > current {
                    p - current
                } else {
                    p + n - current
                };
            &&& next != current
            &&& active[next]
            &&& steps(next) <= steps(i)
        }),
{
    let n = active.len() as int;
    law_moves_to_wanted_pages_only(active, current, i);
    lemma_wanted(active, current + 1, (n - 1) as nat);
    let next = page_after(active, current);
    let (a, b) = (
        if next > current {
            next - current
        } else {
            next + n - current
        },
        if i > current {
            i - current
        } else {
            i + n - current
        },
    );
    if wanted_from(active, current + 1, (n - 1) as nat) is Some {
        let k = choose|k: int|
            {
                &&& 0 <= k < n - 1
                &&& next == #[trigger] (current + 1 + k) % n
                &&& forall|j: int| 0 <= j < k ==> !active[#[trigger] (current + 1 + j) % n]
            };
        lemma_place_on_the_round(current, k, n);
        assert(a == k + 1);
        if b < a {
            lemma_place_on_the_round(current, b - 1, n);
            assert((current + 1 + (b - 1)) % n == i);
        }
    }
}

proof fn lemma_place_on_the_round(current: int, k: int, n: int)
    requires
        0 <= current < n,
        0 <= k < n - 1,
    ensures
        (current + 1 + k) % n == if current + 1 + k < n {
            current + 1 + k
        } else {
            current + 1 + k - n
        },
{
    if current + 1 + k < n {
        vstd::arithmetic::div_mod::lemma_small_mod((current + 1 + k) as nat, n as nat);
    } else {
        let r = current + 1 + k - n;
        vstd::arithmetic::div_mod::lemma_mod_add_multiples_vanish(r, n);
        vstd::arithmetic::div_mod::lemma_small_mod(r as nat, n as nat);
    }
}

/// Moving on, the rotation goes to the next page at once in cut mode, or where
/// it stays on its page, which then is drawn anew; in the other modes it
/// starts a wipe, whose first frame is one step on: 40 pixels sideways, 14 up
/// or down.
pub proof fn law_moving_on(r: RotationView, active: Seq<bool>)
    requires
        r.wf(),
        active.len() == r.pages,
        r.pages <= usize::MAX,
    ensures
        ({
            let next = page_after(active, r.current);
            let m = r.moved_on(active);
            &&& r.mode == PageMode::Cut || next == r.current ==> m.current == next && m.stage
                == fresh_hold()
            &&& next != r.current && (r.mode == PageMode::WipeLeft || r.mode == PageMode::WipeRight)
                ==> m.current == r.current && m.stage == (Stage::Wipe {
                next: next as usize,
                progress: 40,
            })
            &&& next != r.current && (r.mode == PageMode::WipeUp || r.mode == PageMode::WipeDown)
                ==> m.current == r.current && m.stage == (Stage::Wipe {
                next: next as usize,
                progress: 14,
            })
            &&& m.pages == r.pages && m.mode == r.mode && m.refresh == r.refresh && m.hold == r.hold
        }),
{
}

/// A page that comes up waits neither for its time nor for its refresh: it is
/// drawn at once, unless the header has just changed, and its time starts
/// once it has reached the panel.
pub proof fn law_fresh_pages(r: RotationView, now: u128)
    requires
        r.stage == fresh_hold(),
        now + r.refresh <= u128::MAX,
        now + r.hold <= u128::MAX,
    ensures
        r.redraws(false, now),
        !r.redraws(true, now),
        !r.over(now),
        r.refreshed(now).stage == (Stage::Hold {
            deadline: None,
            next_refresh: Some((now + r.refresh) as u128),
            deferred: false,
        }),
        r.refreshed(now).flushed(now).stage == (Stage::Hold {
            deadline: Some((now + r.hold) as u128),
            next_refresh: Some((now + r.refresh) as u128),
            deferred: false,
        }),
{
}

/// Deciding on a redraw, drawing, and sending a frame leave the page that is
/// up and all settings as they are.
pub proof fn law_frames_keep_the_rotation(r: RotationView, changed: bool, now: u128)
    ensures
        r.looked(changed, now).current == r.current,
        r.refreshed(now).current == r.current,
        r.flushed(now).current == r.current,
        r.looked(changed, now).pages == r.pages && r.looked(changed, now).mode == r.mode
            && r.looked(changed, now).refresh == r.refresh && r.looked(changed, now).hold == r.hold,
        r.refreshed(now).pages == r.pages && r.refreshed(now).mode == r.mode && r.refreshed(
            now,
        ).refresh == r.refresh && r.refreshed(now).hold == r.hold,
        r.flushed(now).pages == r.pages && r.flushed(now).mode == r.mode && r.flushed(now).refresh
            == r.refresh && r.flushed(now).hold == r.hold,
        r.stage is Wipe ==> r.looked(changed, now) == r && r.refreshed(now) == r && r.flushed(now)
            == r && !r.redraws(changed, now) && !r.over(now),
{
}

/// Whether a page shows sampled history: all do but the warnings and the
/// single-stat screens.
pub proof fn law_pages_with_history(k: PageKind)
    ensures
        !k.sampled() <==> {
            ||| k == PageKind::Warnings
            ||| k == PageKind::UctronicsCpu
            ||| k == PageKind::UctronicsRam
            ||| k == PageKind::UctronicsTemp
            ||| k == PageKind::UctronicsDisk
        },
{
}

} // verus!
