//! Differential flushing: the bands of a flush are the changed rows, and
//! sending them brings the panel up to date.

use vstd::prelude::*;

use crate::framebuffer::{known, row, unknown, Band, Frames};
use crate::panel::PIXELS;

verus! {

/// Whether one of the bands holds the row.
pub open spec fn covered(bs: Seq<Band>, y: int) -> bool {
    exists|i: int| 0 <= i < bs.len() && #[trigger] holds_row(bs[i], y)
}

/// Whether the band holds the row.
pub open spec fn holds_row(b: Band, y: int) -> bool {
    b.start <= y < b.start + b.rows
}

/// Whether the bands lie in the first `n` rows, top to bottom, each with at
/// least one row, and with at least one row that is in no band between any
/// two.
pub open spec fn apart(bs: Seq<Band>, n: int) -> bool {
    &&& forall|i: int|
        0 <= i < bs.len() ==> 1 <= (#[trigger] bs[i]).rows && bs[i].start + bs[i].rows <= n
    &&& forall|i: int, j: int|
        0 <= i < j < bs.len() ==> (#[trigger] bs[i]).start + bs[i].rows < (#[trigger] bs[j]).start
}

proof fn lemma_bands(f: Frames, n: nat)
    requires
        n <= 80,
    ensures
        apart(f.bands(n), n as int),
        n > 0 && f.dirty(n - 1) ==> f.bands(n).len() > 0 && f.bands(n).last().start
            + f.bands(n).last().rows == n,
        n > 0 && !f.dirty(n - 1) ==> apart(f.bands(n), n - 1),
    decreases n,
{
    if n > 0 {
        let m = (n - 1) as nat;
        lemma_bands(f, m);
        let above = f.bands(m);
        let bs = f.bands(n);
        if f.dirty(n - 1) {
            if n >= 2 && f.dirty(n - 2) {
                let k = above.len() - 1;
                assert forall|i: int| 0 <= i < bs.len() implies 1 <= (#[trigger] bs[i]).rows
                    && bs[i].start + bs[i].rows <= n by {
                    assert(above[i].rows >= 1);
                }
                assert forall|i: int, j: int| 0 <= i < j < bs.len() implies (
                #[trigger] bs[i]).start + bs[i].rows < (#[trigger] bs[j]).start by {
                    assert(bs[i] == above[i]);
                    assert(above[j].start == bs[j].start);
                }
            } else {
                assert forall|i: int| 0 <= i < bs.len() implies 1 <= (#[trigger] bs[i]).rows
                    && bs[i].start + bs[i].rows <= n by {
                    if i < above.len() {
                        assert(bs[i] == above[i]);
                    }
                }
                assert forall|i: int, j: int| 0 <= i < j < bs.len() implies (
                #[trigger] bs[i]).start + bs[i].rows < (#[trigger] bs[j]).start by {
                    assert(bs[i] == above[i]);
                    if j < above.len() {
                        assert(bs[j] == above[j]);
                    } else if n >= 2 {
                        assert(apart(above, n - 2));
                        assert(above[i].start + above[i].rows <= n - 2);
                    }
                }
            }
        }
    }
}

/// Which band a dirty row is in.
proof fn lemma_place(f: Frames, y: int, n: nat)
    requires
        0 <= y < n <= 80,
        f.dirty(y),
    ensures
        0 < f.bands((y + 1) as nat).len() <= f.bands(n).len(),
        holds_row(f.bands(n)[f.bands((y + 1) as nat).len() - 1], y),
    decreases n,
{
    lemma_bands(f, n);
    lemma_bands(f, (y + 1) as nat);
    if y + 1 < n {
        let m = (n - 1) as nat;
        lemma_place(f, y, m);
        lemma_bands(f, m);
    } else {
        assert(f.bands(n).last().rows >= 1);
    }
}

proof fn lemma_covered_is_dirty(f: Frames, y: int, n: nat)
    requires
        0 <= y,
        n <= 80,
        covered(f.bands(n), y),
    ensures
        y < n,
        f.dirty(y),
    decreases n,
{
    lemma_bands(f, n);
    let bs = f.bands(n);
    let i = choose|i: int| 0 <= i < bs.len() && #[trigger] holds_row(bs[i], y);
    assert(bs[i].start + bs[i].rows <= n);
    if n > 0 {
        let m = (n - 1) as nat;
        lemma_bands(f, m);
        if !f.dirty(n - 1) {
            lemma_covered_is_dirty(f, y, m);
        } else if y < n - 1 {
            let above = f.bands(m);
            if n >= 2 && f.dirty(n - 2) {
                if i < above.len() - 1 {
                    assert(bs[i] == above[i]);
                }
                assert(holds_row(above[i], y));
            } else {
                assert(i < above.len());
                assert(holds_row(above[i], y));
            }
            lemma_covered_is_dirty(f, y, m);
        }
    }
}

/// A flush sends exactly the rows that differ from what the panel shows.
pub proof fn law_bands_are_the_dirty_rows(f: Frames, y: int)
    requires
        0 <= y < 80,
    ensures
        covered(f.bands(80), y) <==> f.dirty(y),
{
    if f.dirty(y) {
        lemma_place(f, y, 80);
    }
    if covered(f.bands(80), y) {
        lemma_covered_is_dirty(f, y, 80);
    }
}

/// The bands of a flush lie on the panel, run top to bottom, and are as long
/// as can be: between any two of them there is a row that did not change.
pub proof fn law_bands_are_apart(f: Frames)
    ensures
        apart(f.bands(80), 80),
{
    lemma_bands(f, 80);
}

/// What the panel shows once some bands have been sent: the new frame in the
/// rows of those bands, and what it showed before elsewhere.
proof fn lemma_after_all(f: Frames, bs: Seq<Band>, n: nat)
    requires
        n <= bs.len(),
    ensures
        f.after_all(bs, n).back == f.back,
        f.after_all(bs, n).shown.len() == f.shown.len(),
        forall|p: int|
            0 <= p < f.shown.len() ==> #[trigger] f.after_all(bs, n).shown[p] == (if covered(
                bs.take(n as int),
                p / 160,
            ) {
                Some(f.back[p])
            } else {
                f.shown[p]
            }),
    decreases n,
{
    if n > 0 {
        let m = (n - 1) as nat;
        lemma_after_all(f, bs, m);
        let was = f.after_all(bs, m);
        assert forall|p: int| 0 <= p < f.shown.len() implies #[trigger] f.after_all(bs, n).shown[p]
            == (if covered(bs.take(n as int), p / 160) {
            Some(f.back[p])
        } else {
            f.shown[p]
        }) by {
            assert(was.shown[p] == (if covered(bs.take(m as int), p / 160) {
                Some(f.back[p])
            } else {
                f.shown[p]
            }));
            let y = p / 160;
            let short = bs.take(m as int);
            let long = bs.take(n as int);
            if covered(short, y) {
                let i = choose|i: int| 0 <= i < short.len() && #[trigger] holds_row(short[i], y);
                assert(long[i] == short[i]);
                assert(holds_row(long[i], y));
            }
            if holds_row(bs[m as int], y) {
                assert(long[m as int] == bs[m as int]);
                assert(holds_row(long[m as int], y));
            } else if covered(long, y) {
                let i = choose|i: int| 0 <= i < long.len() && #[trigger] holds_row(long[i], y);
                assert(short[i] == long[i]);
                assert(holds_row(short[i], y));
            }
        }
    } else {
        assert(bs.take(0).len() == 0);
    }
}

proof fn lemma_clean_row(f: Frames, y: int, p: int)
    requires
        f.whole(),
        0 <= p < PIXELS,
        y == p / 160,
        !f.dirty(y),
    ensures
        f.shown[p] == Some(f.back[p]),
{
    assert(row(known(f.back), y)[p - y * 160] == Some(f.back[p]));
    assert(row(f.shown, y)[p - y * 160] == f.shown[p]);
}

/// Once every band of a flush has reached the panel, it shows the frame.
pub proof fn law_flush_completes(f: Frames)
    requires
        f.whole(),
    ensures
        f.after_all(f.bands(80), f.bands(80).len()).shown == known(f.back),
{
    let bs = f.bands(80);
    let g = f.after_all(bs, bs.len());
    lemma_after_all(f, bs, bs.len());
    assert(bs.take(bs.len() as int) =~= bs);
    assert forall|p: int| 0 <= p < PIXELS implies #[trigger] g.shown[p] == Some(f.back[p]) by {
        let y = p / 160;
        law_bands_are_the_dirty_rows(f, y);
        if !f.dirty(y) {
            lemma_clean_row(f, y, p);
        }
    }
    assert(g.shown =~= known(f.back));
}

/// A frame that the panel is known to show costs nothing to flush, and no
/// other frame does.
pub proof fn law_unchanged_frames_cost_nothing(f: Frames)
    requires
        f.whole(),
    ensures
        f.bands(80).len() == 0 <==> f.shown == known(f.back),
{
    let bs = f.bands(80);
    if f.shown == known(f.back) && bs.len() > 0 {
        lemma_bands(f, 80);
        let y = bs[0].start as int;
        assert(bs[0].rows >= 1);
        assert(holds_row(bs[0], y));
        assert(covered(bs, y));
        lemma_covered_is_dirty(f, y, 80);
        assert(false);
    }
    if bs.len() == 0 {
        law_flush_completes(f);
    }
}

/// The first flush sends the whole frame as one band, whatever the frame
/// holds.
pub proof fn law_first_flush_sends_everything(f: Frames)
    requires
        f.whole(),
        f.shown == unknown(),
    ensures
        f.bands(80) == seq![Band { start: 0, rows: 80 }],
{
    lemma_unknown(f, 80);
}

proof fn lemma_unknown(f: Frames, n: nat)
    requires
        f.whole(),
        f.shown == unknown(),
        1 <= n <= 80,
    ensures
        f.dirty(n - 1),
        f.bands(n) == seq![Band { start: 0, rows: n as u16 }],
    decreases n,
{
    let y = n - 1;
    assert(row(known(f.back), y)[0] == Some(f.back[y * 160]));
    assert(row(f.shown, y)[0] == f.shown[y * 160]);
    if n > 1 {
        lemma_unknown(f, (n - 1) as nat);
    } else {
        assert(f.bands(0) =~= Seq::<Band>::empty());
    }
    assert(f.bands(n) =~= seq![Band { start: 0, rows: n as u16 }]);
}

/// A flush that stops after some of its bands is taken up by the next one:
/// what that has to send is exactly the bands that were not sent.
pub proof fn law_flush_resumes(f: Frames, k: nat)
    requires
        f.whole(),
        k <= f.bands(80).len(),
    ensures
        f.after_all(f.bands(80), k).bands(80) == f.bands(80).skip(k as int),
{
    lemma_resumed(f, k, 80);
    let bs = f.bands(80);
    assert(bs.skip(least(k as int, bs.len() as int)) =~= bs.skip(k as int));
}

spec fn least(a: int, b: int) -> int {
    if a <= b {
        a
    } else {
        b
    }
}

proof fn lemma_same_row(a: Seq<Option<u16>>, b: Seq<Option<u16>>, y: int)
    requires
        a.len() == PIXELS,
        b.len() == PIXELS,
        0 <= y < 80,
        forall|p: int| y * 160 <= p < y * 160 + 160 ==> #[trigger] a[p] == b[p],
    ensures
        row(a, y) == row(b, y),
{
    assert(row(a, y) =~= row(b, y));
}

/// The rows that are left to send once the first `k` bands have been sent.
proof fn lemma_left_dirty(f: Frames, k: nat, y: int)
    requires
        f.whole(),
        k <= f.bands(80).len(),
        0 <= y < 80,
    ensures
        f.after_all(f.bands(80), k).dirty(y) <==> f.dirty(y) && f.bands((y + 1) as nat).len() > k,
{
    let bs = f.bands(80);
    let g = f.after_all(bs, k);
    lemma_after_all(f, bs, k);
    lemma_bands(f, 80);
    if covered(bs.take(k as int), y) {
        let i = choose|i: int|
            0 <= i < bs.take(k as int).len() && #[trigger] holds_row(bs.take(k as int)[i], y);
        assert(holds_row(bs[i], y));
        lemma_covered_is_dirty(f, y, 80);
        lemma_place(f, y, 80);
        let c = f.bands((y + 1) as nat).len() - 1;
        assert(holds_row(bs[c], y));
        if i < c {
            assert(bs[i].start + bs[i].rows < bs[c].start);
        }
        assert forall|p: int| y * 160 <= p < y * 160 + 160 implies #[trigger] known(g.back)[p]
            == g.shown[p] by {
            assert(p / 160 == y);
        }
        lemma_same_row(known(g.back), g.shown, y);
    } else {
        assert forall|p: int| y * 160 <= p < y * 160 + 160 implies #[trigger] g.shown[p]
            == f.shown[p] by {
            assert(p / 160 == y);
        }
        lemma_same_row(g.shown, f.shown, y);
        if f.dirty(y) {
            lemma_place(f, y, 80);
            let c = f.bands((y + 1) as nat).len() - 1;
            if c < k {
                assert(bs.take(k as int)[c] == bs[c]);
                assert(holds_row(bs.take(k as int)[c], y));
            }
        }
    }
}

proof fn lemma_resumed(f: Frames, k: nat, n: nat)
    requires
        f.whole(),
        k <= f.bands(80).len(),
        n <= 80,
    ensures
        f.after_all(f.bands(80), k).bands(n) == f.bands(n).skip(
            least(k as int, f.bands(n).len() as int),
        ),
    decreases n,
{
    let g = f.after_all(f.bands(80), k);
    let cut = least(k as int, f.bands(n).len() as int);
    if n == 0 {
        assert(g.bands(0) =~= f.bands(0).skip(cut));
    } else {
        let m = (n - 1) as nat;
        lemma_resumed(f, k, m);
        lemma_left_dirty(f, k, n - 1);
        lemma_bands(f, n);
        lemma_bands(f, m);
        let above = f.bands(m);
        if f.dirty(n - 1) {
            if n >= 2 {
                lemma_left_dirty(f, k, n - 2);
            }
            if f.bands(n).len() > k {
                assert(g.bands(n) =~= f.bands(n).skip(cut));
            } else {
                assert(above.len() <= k);
                assert(g.bands(n) =~= f.bands(n).skip(cut));
            }
        }
    }
}

/// A row is to be sent exactly when one of its pixels is not known to be on
/// the panel as the frame has it.
pub proof fn law_rows_that_differ_are_dirty(f: Frames, y: int)
    requires
        f.whole(),
        0 <= y < 80,
    ensures
        f.dirty(y) <==> exists|x: int|
            0 <= x < 160 && #[trigger] f.shown[y * 160 + x] != Some(f.back[y * 160 + x]),
{
    let (a, b) = (row(known(f.back), y), row(f.shown, y));
    assert forall|x: int| 0 <= x < 160 implies #[trigger] a[x] == Some(f.back[y * 160 + x]) && b[x]
        == f.shown[y * 160 + x] by {}
    if forall|x: int|
        0 <= x < 160 ==> #[trigger] f.shown[y * 160 + x] == Some(f.back[y * 160 + x]) {
        assert forall|x: int| 0 <= x < 160 implies a[x] == b[x] by {
            assert(f.shown[y * 160 + x] == Some(f.back[y * 160 + x]));
        }
        assert(a =~= b);
    }
    if exists|x: int|
        0 <= x < 160 && #[trigger] f.shown[y * 160 + x] != Some(f.back[y * 160 + x]) {
        let x = choose|x: int|
            0 <= x < 160 && #[trigger] f.shown[y * 160 + x] != Some(f.back[y * 160 + x]);
        assert(a[x] != b[x]);
    }
}

/// A band that has been sent is on the panel as the frame has it; all other
/// rows are as they were.
pub proof fn law_sent_bands_are_shown(f: Frames, b: Band, x: int, y: int)
    requires
        f.whole(),
        0 <= x < 160,
        0 <= y < 80,
    ensures
        b.start <= y < b.start + b.rows ==> f.after(b).shown[y * 160 + x] == Some(
            f.back[y * 160 + x],
        ),
        !(b.start <= y < b.start + b.rows) ==> f.after(b).shown[y * 160 + x] == f.shown[y * 160 + x],
        f.after(b).back == f.back,
{
    assert((y * 160 + x) / 160 == y);
}

} // verus!
