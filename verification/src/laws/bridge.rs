//! The bridge's register protocol, as a model, and what the writes of a blit
//! do to the panel behind it.

use vstd::prelude::*;

use crate::framebuffer::{known, Band, Frames};

use crate::st7735::{
    band_writes, burst, bus_nanos, chunks, command, pixel_bytes, session, session_end, session_rows, sessions, window, Tx,
    BURST_MAX_LENGTH, BURST_WRITE_REG, CHAR_DATA_REG, MAX_SESSION_BYTES, SYNC_REG,
    X_COORDINATE_REG, X_START, Y_COORDINATE_REG, Y_START,
};

verus! {

/// The bridge: the controller's memory by column and row, the address
/// window, whether burst mode is on, and the bytes received since the window
/// was committed.
#[verifier::ext_equal]
pub struct Bridge {
    pub glass: spec_fn(int, int) -> u16,
    pub x0: int,
    pub x1: int,
    pub y0: int,
    pub y1: int,
    pub bursting: bool,
    pub stream: Seq<u8>,
}

/// The pixel that two bytes of a stream stand for, high byte first.
pub open spec fn pixel_of(stream: Seq<u8>, k: int) -> u16 {
    (stream[2 * k] * 256 + stream[2 * k + 1]) as u16
}

impl Bridge {
    /// The position of a point in the window, left to right and top to
    /// bottom.
    pub open spec fn place(self, col: int, row: int) -> int {
        (row - self.y0) * (self.x1 - self.x0 + 1) + (col - self.x0)
    }

    /// Whether the stream has reached a point of the window.
    pub open spec fn reached(self, col: int, row: int) -> bool {
        &&& self.x0 <= col <= self.x1
        &&& self.y0 <= row <= self.y1
        &&& 2 * self.place(col, row) + 1 < self.stream.len()
    }

    /// The memory with the stream in the window.
    pub open spec fn landed(self) -> spec_fn(int, int) -> u16 {
        |col: int, row: int|
            if self.reached(col, row) {
                pixel_of(self.stream, self.place(col, row))
            } else {
                (self.glass)(col, row)
            }
    }

    /// What one write does.
    pub open spec fn take(self, tx: Tx) -> Bridge {
        match tx {
            Tx::Command { register, high, low } => if register == X_COORDINATE_REG {
                Bridge { x0: high as int, x1: low as int, ..self }
            } else if register == Y_COORDINATE_REG {
                Bridge { y0: high as int, y1: low as int, ..self }
            } else if register == CHAR_DATA_REG {
                Bridge { stream: Seq::empty(), ..self }
            } else if register == BURST_WRITE_REG {
                Bridge { bursting: low == 1, ..self }
            } else if register == SYNC_REG {
                Bridge { glass: self.landed(), ..self }
            } else {
                self
            },
            Tx::Chunk { bytes } => if self.bursting {
                Bridge { stream: self.stream + bytes, ..self }
            } else {
                self
            },
        }
    }

    /// What a list of writes does.
    pub open spec fn run(self, s: Seq<Tx>) -> Bridge
        decreases s.len(),
    {
        if s.len() == 0 {
            self
        } else {
            self.run(s.drop_last()).take(s.last())
        }
    }

    /// The color of a pixel of the panel.
    pub open spec fn pixel(self, col: int, row: int) -> u16 {
        (self.glass)(col + X_START, row + Y_START)
    }

    /// Whether the panel shows a frame.
    pub open spec fn shows(self, frame: Seq<u16>) -> bool {
        forall|col: int, row: int|
            0 <= col < 160 && 0 <= row < 80 ==> #[trigger] self.pixel(col, row) == frame[row * 160
                + col]
    }

    /// Whether the panel shows what is known of it.
    pub open spec fn agrees(self, shown: Seq<Option<u16>>) -> bool {
        forall|col: int, row: int|
            0 <= col < 160 && 0 <= row < 80 && shown[row * 160 + col] is Some
                ==> #[trigger] self.pixel(col, row) == shown[row * 160 + col]->0
    }
}

proof fn lemma_run_add(b: Bridge, s: Seq<Tx>, t: Seq<Tx>)
    ensures
        b.run(s + t) == b.run(s).run(t),
    decreases t.len(),
{
    if t.len() == 0 {
        assert(s + t =~= s);
    } else {
        assert((s + t).drop_last() =~= s + t.drop_last());
        lemma_run_add(b, s, t.drop_last());
    }
}

proof fn lemma_run_one(b: Bridge, tx: Tx)
    ensures
        b.run(seq![tx]) == b.take(tx),
{
    let s = seq![tx];
    assert(s.drop_last() =~= Seq::<Tx>::empty());
    assert(b.run(s.drop_last()) == b);
}

proof fn lemma_run_chunks(b: Bridge, bytes: Seq<u8>)
    requires
        b.bursting,
    ensures
        b.run(chunks(bytes)) == (Bridge { stream: b.stream + bytes, ..b }),
    decreases bytes.len(),
{
    if bytes.len() == 0 {
        assert(b.stream + bytes =~= b.stream);
    } else if bytes.len() <= BURST_MAX_LENGTH {
        lemma_run_one(b, Tx::Chunk { bytes });
    } else {
        let head = bytes.take(BURST_MAX_LENGTH as int);
        let tail = bytes.skip(BURST_MAX_LENGTH as int);
        let one = seq![Tx::Chunk { bytes: head }];
        lemma_run_add(b, one, chunks(tail));
        lemma_run_one(b, Tx::Chunk { bytes: head });
        lemma_run_chunks(b.run(one), tail);
        assert(b.stream + head + tail =~= b.stream + bytes);
    }
}

proof fn lemma_run_window(b: Bridge, x0: int, y0: int, x1: int, y1: int)
    requires
        0 <= x0 <= x1 < 160,
        0 <= y0 <= y1 < 80,
    ensures
        b.run(window(x0, y0, x1, y1)) == (Bridge {
            x0,
            x1,
            y0: y0 + Y_START,
            y1: y1 + Y_START,
            stream: Seq::empty(),
            ..b
        }),
{
    let w = window(x0, y0, x1, y1);
    let a = command(X_COORDINATE_REG, (x0 + X_START) as u8, (x1 + X_START) as u8);
    let c = command(Y_COORDINATE_REG, (y0 + Y_START) as u8, (y1 + Y_START) as u8);
    let d = command(CHAR_DATA_REG, 0, 0);
    let e = command(SYNC_REG, 0, 1);
    assert(w =~= seq![a] + seq![c] + seq![d] + seq![e]);
    lemma_run_add(b, seq![a] + seq![c] + seq![d], seq![e]);
    lemma_run_add(b, seq![a] + seq![c], seq![d]);
    lemma_run_add(b, seq![a], seq![c]);
    lemma_run_one(b, a);
    lemma_run_one(b.take(a), c);
    lemma_run_one(b.take(a).take(c), d);
    let set = b.take(a).take(c).take(d);
    lemma_run_one(set, e);
    assert forall|col: int, row: int| #[trigger] (set.landed())(col, row) == (set.glass)(
        col,
        row,
    ) by {
        if set.reached(col, row) {
            let (dc, dr, n) = (col - set.x0, row - set.y0, set.x1 - set.x0 + 1);
            assert(dr * n + dc >= 0) by (nonlinear_arith)
                requires
                    dc >= 0,
                    dr >= 0,
                    n >= 0,
            ;
        }
    }
    assert(set.landed() =~= set.glass);
}

proof fn lemma_run_burst(b: Bridge, bytes: Seq<u8>)
    ensures
        b.run(burst(bytes)) == (Bridge {
            stream: b.stream + bytes,
            bursting: false,
            glass: (Bridge { stream: b.stream + bytes, ..b }).landed(),
            ..b
        }),
{
    let on = command(BURST_WRITE_REG, 0, 1);
    let off = command(BURST_WRITE_REG, 0, 0);
    let sync = command(SYNC_REG, 0, 1);
    assert(burst(bytes) =~= seq![on] + chunks(bytes) + seq![off] + seq![sync]);
    lemma_run_add(b, seq![on] + chunks(bytes) + seq![off], seq![sync]);
    lemma_run_add(b, seq![on] + chunks(bytes), seq![off]);
    lemma_run_add(b, seq![on], chunks(bytes));
    lemma_run_one(b, on);
    let started = b.take(on);
    lemma_run_chunks(started, bytes);
    let filled = Bridge { stream: b.stream + bytes, ..started };
    lemma_run_one(filled, off);
    lemma_run_one(filled.take(off), sync);
    let want = (Bridge { stream: b.stream + bytes, ..b }).landed();
    assert(filled.take(off).landed() =~= want);
}

/// What a block of pixels leaves on the panel.
pub open spec fn drawn_over(
    b: Bridge,
    x: int,
    y: int,
    w: int,
    h: int,
    p: Seq<u16>,
    col: int,
    row: int,
) -> u16 {
    if x <= col < x + w && y <= row < y + h {
        p[(row - y) * w + (col - x)]
    } else {
        b.pixel(col, row)
    }
}

proof fn lemma_session(b: Bridge, x: int, y: int, w: int, p: Seq<u16>, r: int, e: int)
    requires
        0 <= x,
        0 < w,
        x + w <= 160,
        0 <= y,
        0 <= r < e,
        y + e <= 80,
        e * w <= p.len(),
    ensures
        forall|col: int, row: int| #[trigger]
            b.run(session(x, y, w, p, r, e)).pixel(col, row) == (if x <= col < x + w && y + r <= row
                < y + e {
                p[(row - y) * w + (col - x)]
            } else {
                b.pixel(col, row)
            }),
{
    let part = p.subrange(r * w, e * w);
    let bytes = pixel_bytes(part);
    let win = window(x, y + r, x + w - 1, y + e - 1);
    assert(0 <= r * w <= e * w) by (nonlinear_arith)
        requires
            0 <= r < e,
            0 < w,
    ;
    assert(session(x, y, w, p, r, e) == win + burst(bytes));
    lemma_run_add(b, win, burst(bytes));
    lemma_run_window(b, x, y + r, x + w - 1, y + e - 1);
    let set = b.run(win);
    lemma_run_burst(set, bytes);
    assert(set.stream + bytes =~= bytes);
    let full = Bridge { stream: bytes, ..set };
    let end = b.run(session(x, y, w, p, r, e));
    assert(end.glass == full.landed());
    assert forall|col: int, row: int| #[trigger] end.pixel(col, row) == (if x <= col < x + w && y
        + r <= row < y + e {
        p[(row - y) * w + (col - x)]
    } else {
        b.pixel(col, row)
    }) by {
        let (gc, gr) = (col + X_START, row + Y_START);
        assert(full.x1 - full.x0 + 1 == w);
        if x <= col < x + w && y + r <= row < y + e {
            let k = full.place(gc, gr);
            let (dr, dc) = (row - y - r, col - x);
            assert(k == dr * w + dc);
            assert(0 <= dr * w + dc < (e - r) * w) by (nonlinear_arith)
                requires
                    0 <= dr < e - r,
                    0 <= dc < w,
            ;
            assert((e - r) * w == e * w - r * w) by (nonlinear_arith);
            assert(0 <= k < part.len());
            assert(full.reached(gc, gr));
            assert(bytes[2 * k] == (part[k] / 256) as u8) by {
                assert((2 * k) / 2 == k && (2 * k) % 2 == 0);
            }
            assert(bytes[2 * k + 1] == (part[k] % 256) as u8) by {
                assert((2 * k + 1) / 2 == k && (2 * k + 1) % 2 == 1);
            }
            assert(pixel_of(bytes, k) == part[k]);
            assert(r * w + k == (row - y) * w + (col - x)) by (nonlinear_arith)
                requires
                    k == (row - y - r) * w + (col - x),
            ;
        }
    }
}

/// A blit on the panel puts each pixel of the block where it belongs and
/// leaves the rest of the panel as it is.
pub proof fn law_blit_lands(b: Bridge, x: int, y: int, w: int, h: int, p: Seq<u16>)
    requires
        0 <= x,
        0 < w,
        x + w <= 160,
        0 <= y,
        0 <= h,
        y + h <= 80,
        w * h <= p.len(),
    ensures
        forall|col: int, row: int| #[trigger]
            b.run(sessions(x, y, w, h, p, 0)).pixel(col, row) == drawn_over(
                b,
                x,
                y,
                w,
                h,
                p,
                col,
                row,
            ),
{
    assert(h * w == w * h) by (nonlinear_arith);
    lemma_sessions_land(b, x, y, w, h, p, 0);
}

proof fn lemma_sessions_land(b: Bridge, x: int, y: int, w: int, h: int, p: Seq<u16>, r: int)
    requires
        0 <= x,
        0 < w,
        x + w <= 160,
        0 <= y,
        0 <= r <= h,
        y + h <= 80,
        h * w <= p.len(),
    ensures
        forall|col: int, row: int| #[trigger]
            b.run(sessions(x, y, w, h, p, r)).pixel(col, row) == (if x <= col < x + w && y + r
                <= row < y + h {
                p[(row - y) * w + (col - x)]
            } else {
                b.pixel(col, row)
            }),
    decreases h - r,
{
    if r < h {
        let e = session_end(w, h, r);
        assert(e * w <= h * w) by (nonlinear_arith)
            requires
                e <= h,
                0 < w,
        ;
        let first = session(x, y, w, p, r, e);
        lemma_run_add(b, first, sessions(x, y, w, h, p, e));
        lemma_session(b, x, y, w, p, r, e);
        let mid = b.run(first);
        lemma_sessions_land(mid, x, y, w, h, p, e);
        let end = b.run(sessions(x, y, w, h, p, r));
        assert forall|col: int, row: int| #[trigger] end.pixel(col, row) == (if x <= col < x + w
            && y + r <= row < y + h {
            p[(row - y) * w + (col - x)]
        } else {
            b.pixel(col, row)
        }) by {
            assert(mid.run(sessions(x, y, w, h, p, e)).pixel(col, row) == end.pixel(col, row));
            assert(mid.pixel(col, row) == b.run(first).pixel(col, row));
        }
    }
}

/// The writes that send the first `n` bands of a flush.
pub open spec fn flush_writes(f: Frames, bs: Seq<Band>, n: nat) -> Seq<Tx>
    decreases n,
{
    if n == 0 {
        Seq::empty()
    } else {
        flush_writes(f, bs, (n - 1) as nat) + band_writes(f.back, bs[n - 1])
    }
}

/// A panel that shows what the framebuffer knows of it still does so after
/// any number of the bands of a flush have been sent.
pub proof fn law_bands_reach_the_panel(f: Frames, b: Bridge, n: nat)
    requires
        f.whole(),
        b.agrees(f.shown),
        n <= f.bands(80).len(),
    ensures
        b.run(flush_writes(f, f.bands(80), n)).agrees(f.after_all(f.bands(80), n).shown),
    decreases n,
{
    let bs = f.bands(80);
    if n > 0 {
        let m = (n - 1) as nat;
        law_bands_reach_the_panel(f, b, m);
        super::flush::law_bands_are_apart(f);
        let band = bs[m as int];
        let p = f.back.subrange(band.start * 160, (band.start + band.rows) * 160);
        let last = sessions(0, band.start as int, 160, band.rows as int, p, 0);
        let mid = b.run(flush_writes(f, bs, m));
        let was = f.after_all(bs, m);
        lemma_back_kept(f, bs, m);
        lemma_run_add(b, flush_writes(f, bs, m), last);
        law_blit_lands(mid, 0, band.start as int, 160, band.rows as int, p);
        let end = b.run(flush_writes(f, bs, n));
        let now = f.after_all(bs, n).shown;
        assert forall|col: int, row: int| 0 <= col < 160 && 0 <= row < 80 && now[row * 160
            + col] is Some implies #[trigger] end.pixel(col, row) == now[row * 160 + col]->0 by {
            assert(end.pixel(col, row) == mid.run(last).pixel(col, row));
            assert(was.shown[row * 160 + col] is Some ==> mid.pixel(col, row) == was.shown[row * 160
                + col]->0);
            assert((row * 160 + col) / 160 == row);
        }
    }
}

proof fn lemma_back_kept(f: Frames, bs: Seq<Band>, n: nat)
    ensures
        f.after_all(bs, n).back == f.back,
        f.after_all(bs, n).shown.len() == f.shown.len(),
    decreases n,
{
    if n > 0 {
        lemma_back_kept(f, bs, (n - 1) as nat);
    }
}

/// Flushing a frame leaves the panel showing it, though only rows are sent
/// that it is not known to show already. Where nothing is known, that holds
/// whatever the panel had on it before.
pub proof fn law_flush_shows_the_frame(f: Frames, b: Bridge)
    requires
        f.whole(),
        b.agrees(f.shown),
    ensures
        b.run(flush_writes(f, f.bands(80), f.bands(80).len())).shows(f.back),
{
    law_bands_reach_the_panel(f, b, f.bands(80).len());
    super::flush::law_flush_completes(f);
    let end = b.run(flush_writes(f, f.bands(80), f.bands(80).len()));
    assert forall|col: int, row: int| 0 <= col < 160 && 0 <= row < 80 implies #[trigger] end.pixel(
        col,
        row,
    ) == f.back[row * 160 + col] by {
        assert(known(f.back)[row * 160 + col] == Some(f.back[row * 160 + col]));
    }
}

/// The bytes of a write.
pub open spec fn size(tx: Tx) -> nat {
    match tx {
        Tx::Command { .. } => 3,
        Tx::Chunk { bytes } => bytes.len(),
    }
}

proof fn lemma_chunks_short(bytes: Seq<u8>)
    ensures
        forall|i: int|
            0 <= i < chunks(bytes).len() ==> size(#[trigger] chunks(bytes)[i]) <= BURST_MAX_LENGTH,
    decreases bytes.len(),
{
    if bytes.len() > BURST_MAX_LENGTH {
        let tail = bytes.skip(BURST_MAX_LENGTH as int);
        lemma_chunks_short(tail);
        let one = seq![Tx::Chunk { bytes: bytes.take(BURST_MAX_LENGTH as int) }];
        assert forall|i: int| 0 <= i < chunks(bytes).len() implies size(#[trigger] chunks(bytes)[i])
            <= BURST_MAX_LENGTH by {
            if i > 0 {
                assert(chunks(bytes)[i] == chunks(tail)[i - 1]);
            }
        }
    }
}

/// No write of a blit is longer than the bridge takes.
pub proof fn law_writes_are_short(x: int, y: int, w: int, h: int, p: Seq<u16>, r: int)
    ensures
        forall|i: int|
            0 <= i < sessions(x, y, w, h, p, r).len() ==> size(
                #[trigger] sessions(x, y, w, h, p, r)[i],
            ) <= BURST_MAX_LENGTH,
    decreases h - r,
{
    if r < h && w > 0 {
        let e = session_end(w, h, r);
        let rest = sessions(x, y, w, h, p, e);
        let one = session(x, y, w, p, r, e);
        law_writes_are_short(x, y, w, h, p, e);
        lemma_chunks_short(pixel_bytes(p.subrange(r * w, e * w)));
        let all = sessions(x, y, w, h, p, r);
        let cs = chunks(pixel_bytes(p.subrange(r * w, e * w)));
        assert forall|i: int| 0 <= i < all.len() implies size(#[trigger] all[i])
            <= BURST_MAX_LENGTH by {
            if i >= one.len() {
                assert(all[i] == rest[i - one.len()]);
            } else if 5 <= i < 5 + cs.len() {
                assert(all[i] == cs[i - 5]);
            }
        }
    }
}

/// Nanoseconds that a write takes on the bus at 400 kHz, with nine bits for
/// each byte and for the address, and with the pause behind it.
pub open spec fn write_nanos(tx: Tx) -> nat {
    match tx {
        Tx::Command { .. } => 4 * 22_500 + 10_000,
        Tx::Chunk { bytes } => (bytes.len() + 1) * 22_500 + 700_000,
    }
}

/// Nanoseconds that a list of writes takes.
pub open spec fn total_nanos(s: Seq<Tx>) -> int
    decreases s.len(),
{
    if s.len() == 0 {
        0
    } else {
        total_nanos(s.drop_last()) + write_nanos(s.last())
    }
}

proof fn lemma_nanos_add(s: Seq<Tx>, t: Seq<Tx>)
    ensures
        total_nanos(s + t) == total_nanos(s) + total_nanos(t),
    decreases t.len(),
{
    if t.len() == 0 {
        assert(s + t =~= s);
    } else {
        assert((s + t).drop_last() =~= s + t.drop_last());
        lemma_nanos_add(s, t.drop_last());
    }
}

proof fn lemma_nanos_one(tx: Tx)
    ensures
        total_nanos(seq![tx]) == write_nanos(tx),
{
    let s = seq![tx];
    assert(s.drop_last() =~= Seq::<Tx>::empty());
    assert(total_nanos(s.drop_last()) == 0);
}

proof fn lemma_nanos_chunks(bytes: Seq<u8>, m: nat)
    requires
        bytes.len() == 160 * m,
    ensures
        total_nanos(chunks(bytes)) == m * 4_322_500,
    decreases m,
{
    if m == 1 {
        lemma_nanos_one(Tx::Chunk { bytes });
    } else if m > 1 {
        let head = Tx::Chunk { bytes: bytes.take(160) };
        let tail = bytes.skip(160);
        lemma_nanos_chunks(tail, (m - 1) as nat);
        lemma_nanos_add(seq![head], chunks(tail));
        lemma_nanos_one(head);
    }
}

proof fn lemma_nanos_session(x: int, y: int, p: Seq<u16>, r: int, e: int)
    requires
        0 <= r <= e,
        e * 160 <= p.len(),
    ensures
        total_nanos(session(x, y, 160, p, r, e)) == (e - r) * 8_645_000 + 700_000,
{
    let bytes = pixel_bytes(p.subrange(r * 160, e * 160));
    let on = command(BURST_WRITE_REG, 0, 1);
    let off = command(BURST_WRITE_REG, 0, 0);
    let sync = command(SYNC_REG, 0, 1);
    lemma_nanos_chunks(bytes, (2 * (e - r)) as nat);
    assert(burst(bytes) =~= seq![on] + chunks(bytes) + seq![off] + seq![sync]);
    lemma_nanos_add(seq![on] + chunks(bytes) + seq![off], seq![sync]);
    lemma_nanos_add(seq![on] + chunks(bytes), seq![off]);
    lemma_nanos_add(seq![on], chunks(bytes));
    lemma_nanos_one(on);
    lemma_nanos_one(off);
    lemma_nanos_one(sync);
    let w = window(x % 256, (y + r) % 256, (x + 159) % 256, (y + e - 1) % 256);
    assert(w =~= seq![w[0]] + seq![w[1]] + seq![w[2]] + seq![w[3]]);
    lemma_nanos_add(seq![w[0]] + seq![w[1]] + seq![w[2]], seq![w[3]]);
    lemma_nanos_add(seq![w[0]] + seq![w[1]], seq![w[2]]);
    lemma_nanos_add(seq![w[0]], seq![w[1]]);
    lemma_nanos_one(w[0]);
    lemma_nanos_one(w[1]);
    lemma_nanos_one(w[2]);
    lemma_nanos_one(w[3]);
    lemma_nanos_add(w, burst(bytes));
    assert(session(x, y, 160, p, r, e) == w + burst(bytes));
}

/// For full-width blocks, the time that the bus is reckoned to take is the
/// time of the writes that send the block.
pub proof fn law_bus_time_is_that_of_the_writes(x: int, y: int, h: int, p: Seq<u16>)
    requires
        0 <= h,
        160 * h <= p.len(),
    ensures
        total_nanos(sessions(x, y, 160, h, p, 0)) == bus_nanos(160, h),
{
    lemma_nanos_sessions(x, y, h, p, 0);
}

proof fn lemma_nanos_sessions(x: int, y: int, h: int, p: Seq<u16>, r: int)
    requires
        0 <= r <= h,
        160 * h <= p.len(),
    ensures
        total_nanos(sessions(x, y, 160, h, p, r)) == bus_nanos(160, h - r),
    decreases h - r,
{
    assert(session_rows(160) == 16) by {
        assert(5_120int / 320 == 16);
    }
    if r < h {
        let e = session_end(160, h, r);
        lemma_nanos_sessions(x, y, h, p, e);
        lemma_nanos_session(x, y, p, r, e);
        lemma_nanos_add(session(x, y, 160, p, r, e), sessions(x, y, 160, h, p, e));
    }
}

/// No burst session of a blit is longer than 16 full-width rows, unless it is
/// a single row.
pub proof fn law_sessions_are_short(w: int, h: int, r: int)
    requires
        0 < w,
        0 <= r < h,
    ensures
        r < session_end(w, h, r) <= h,
        2 * w * (session_end(w, h, r) - r) <= MAX_SESSION_BYTES || session_end(w, h, r) - r == 1,
{
    let n = session_rows(w);
    let rows = session_end(w, h, r) - r;
    if MAX_SESSION_BYTES as int / (2 * w) >= 1 {
        let d = 2 * w;
        let m = MAX_SESSION_BYTES as int;
        assert(d * (m / d) <= m) by (nonlinear_arith)
            requires
                d > 0,
        ;
        assert(d * rows <= d * n) by (nonlinear_arith)
            requires
                rows <= n,
                d > 0,
        ;
    }
}

/// The registers of the bridge: a window takes its columns in 0x2a and its
/// rows, 24 further down in the controller's memory, in 0x2b, and is set by
/// 0x2c; bursts are switched by 0x01; each of the two ends with 0x03.
pub proof fn law_registers_of_the_bridge(
    x0: int,
    y0: int,
    x1: int,
    y1: int,
    bytes: Seq<u8>,
)
    requires
        0 <= x0 <= 255,
        0 <= x1 <= 255,
        0 <= y0 <= 231,
        0 <= y1 <= 231,
    ensures
        window(x0, y0, x1, y1) == seq![
            Tx::Command { register: 0x2a, high: x0 as u8, low: x1 as u8 },
            Tx::Command { register: 0x2b, high: (y0 + 24) as u8, low: (y1 + 24) as u8 },
            Tx::Command { register: 0x2c, high: 0, low: 0 },
            Tx::Command { register: 0x03, high: 0, low: 1 },
        ],
        burst(bytes) == seq![Tx::Command { register: 0x01, high: 0, low: 1 }] + chunks(bytes)
            + seq![
            Tx::Command { register: 0x01, high: 0, low: 0 },
            Tx::Command { register: 0x03, high: 0, low: 1 },
        ],
{
    assert(window(x0, y0, x1, y1) =~= seq![
        Tx::Command { register: 0x2a, high: x0 as u8, low: x1 as u8 },
        Tx::Command { register: 0x2b, high: (y0 + 24) as u8, low: (y1 + 24) as u8 },
        Tx::Command { register: 0x2c, high: 0, low: 0 },
        Tx::Command { register: 0x03, high: 0, low: 1 },
    ]);
}

/// The bytes of a burst go out in order, in chunks of 160 but for the last.
pub proof fn law_chunks_of_a_burst(bytes: Seq<u8>, i: int)
    ensures
        chunks(bytes).len() == (bytes.len() + 159) / 160,
        0 <= i < chunks(bytes).len() ==> chunks(bytes)[i] == (Tx::Chunk {
            bytes: bytes.subrange(
                160 * i,
                if 160 * i + 160 <= bytes.len() {
                    160 * i + 160
                } else {
                    bytes.len() as int
                },
            ),
        }),
    decreases bytes.len(),
{
    if bytes.len() > 160 {
        let tail = bytes.skip(160);
        law_chunks_of_a_burst(tail, i - 1);
        if i == 0 {
            assert(bytes.take(160) =~= bytes.subrange(0, 160));
        } else if 0 < i < chunks(bytes).len() {
            let e = if 160 * i + 160 <= bytes.len() {
                160 * i + 160
            } else {
                bytes.len() as int
            };
            assert(chunks(bytes)[i] == chunks(tail)[i - 1]);
            assert(bytes.subrange(160 * i, e) =~= tail.subrange(160 * i - 160, e - 160));
        }
    } else if bytes.len() > 0 {
        assert(bytes.subrange(0, bytes.len() as int) =~= bytes);
    }
}

/// The time of a block of any width: 22.5 microseconds for each byte, 722.5
/// for each chunk of 160 bytes, 700 for each session, of which there are as
/// many as it takes with no more than 5120 bytes, or a single row, in each.
pub proof fn law_bus_time_of_any_block(w: int, h: int, n_chunks: int, rows: int, n_sessions: int)
    requires
        0 < w,
        0 <= h,
        (n_chunks - 1) * 160 < 2 * w * h <= n_chunks * 160,
        rows >= 1,
        2 * w * (rows + 1) > 5_120,
        rows == 1 || 2 * w * rows <= 5_120,
        (n_sessions - 1) * rows < h <= n_sessions * rows,
    ensures
        bus_nanos(w, h) == 2 * w * h * 22_500 + n_chunks * 722_500 + n_sessions * 700_000,
{
    let d = 2 * w;
    let q = 5_120int / d;
    assert(q == rows || (q < 1 && rows == 1)) by (nonlinear_arith)
        requires
            q == 5_120int / d,
            d > 0,
            d * (rows + 1) > 5_120,
            rows == 1 || d * rows <= 5_120,
            rows >= 1,
    ;
    assert(session_rows(w) == rows);
    let bytes = 2 * w * h;
    assert((bytes + 159) / 160 == n_chunks);
    let m = h + rows - 1;
    assert(m / rows == n_sessions) by (nonlinear_arith)
        requires
            m == h + rows - 1,
            (n_sessions - 1) * rows < h <= n_sessions * rows,
            rows >= 1,
    ;
}

} // verus!
