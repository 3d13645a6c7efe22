//! Transport to the panel: an ST7735 display behind a microcontroller that
//! takes register writes over I2C.
//!
//! Every register write is three bytes, `[register, high, low]`. To draw, set
//! an address window, then stream one RGB565 value per pixel into it in burst
//! mode, left to right and top to bottom. This module computes the writes;
//! performing them, each with its pause, is left to the caller.

use vstd::prelude::*;
use vstd::slice::slice_subrange;

use crate::framebuffer::{Band, FrameBuffer};
use crate::panel::{HEIGHT, WIDTH};

verus! {

/// First column of the panel in the controller's memory.
pub const X_START: u8 = 0;

/// First row of the panel in the controller's memory.
pub const Y_START: u8 = 24;

pub const X_COORDINATE_REG: u8 = 0x2a;

pub const Y_COORDINATE_REG: u8 = 0x2b;

pub const CHAR_DATA_REG: u8 = 0x2c;

pub const BURST_WRITE_REG: u8 = 0x01;

pub const SYNC_REG: u8 = 0x03;

/// Longest chunk of a burst.
pub const BURST_MAX_LENGTH: usize = 160;

/// Longest burst session: 16 full-width rows. More would overrun the bridge.
pub const MAX_SESSION_BYTES: usize = 5_120;

/// One write to the bridge.
pub enum Transaction {
    /// A register write.
    Command { register: u8, high: u8, low: u8 },
    /// Raw pixel bytes of a burst.
    Chunk { bytes: Vec<u8> },
}

/// What a write says.
pub enum Tx {
    Command { register: u8, high: u8, low: u8 },
    Chunk { bytes: Seq<u8> },
}

impl View for Transaction {
    type V = Tx;

    open spec fn view(&self) -> Tx {
        match *self {
            Transaction::Command { register, high, low } => Tx::Command { register, high, low },
            Transaction::Chunk { bytes } => Tx::Chunk { bytes: bytes@ },
        }
    }
}

impl Transaction {
    /// Microseconds to wait behind the write.
    pub fn pause_micros(&self) -> (us: u64)
        ensures
            us == (if self@ is Command {
                10u64
            } else {
                700
            }),
    {
        match self {
            Transaction::Command { .. } => 10,
            Transaction::Chunk { .. } => 700,
        }
    }

    /// The bytes to write.
    pub fn to_bytes(&self) -> (r: Vec<u8>)
        ensures
            r@ == (match self@ {
                Tx::Command { register, high, low } => seq![register, high, low],
                Tx::Chunk { bytes } => bytes,
            }),
    {
        match self {
            Transaction::Command { register, high, low } => {
                let mut r: Vec<u8> = Vec::new();
                r.push(*register);
                r.push(*high);
                r.push(*low);
                assert(r@ =~= seq![*register, *high, *low]);
                r
            },
            Transaction::Chunk { bytes } => copy_bytes(bytes.as_slice()),
        }
    }
}

fn copy_bytes(s: &[u8]) -> (v: Vec<u8>)
    ensures
        v@ == s@,
{
    let mut v: Vec<u8> = Vec::new();
    let mut i: usize = 0;
    while i < s.len()
        invariant
            i <= s@.len(),
            v@ == s@.take(i as int),
        decreases s@.len() - i,
    {
        v.push(s[i]);
        i = i + 1;
    }
    v
}

/// What a list of writes says.
pub open spec fn txs(v: Seq<Transaction>) -> Seq<Tx> {
    Seq::new(v.len(), |i: int| v[i]@)
}

/// A register write.
pub open spec fn command(register: u8, high: u8, low: u8) -> Tx {
    Tx::Command { register, high, low }
}

/// The bytes of pixels, each with its high byte first.
pub open spec fn pixel_bytes(p: Seq<u16>) -> Seq<u8> {
    Seq::new(
        2 * p.len(),
        |k: int|
            if k % 2 == 0 {
                (p[k / 2] / 256) as u8
            } else {
                (p[k / 2] % 256) as u8
            },
    )
}

/// Bytes cut into chunks, each of the longest length but the last.
pub open spec fn chunks(b: Seq<u8>) -> Seq<Tx>
    decreases b.len(),
{
    if b.len() == 0 {
        Seq::empty()
    } else if b.len() <= BURST_MAX_LENGTH {
        seq![Tx::Chunk { bytes: b }]
    } else {
        seq![Tx::Chunk { bytes: b.take(BURST_MAX_LENGTH as int) }] + chunks(
            b.skip(BURST_MAX_LENGTH as int),
        )
    }
}

/// A burst: burst mode on, the chunks, burst mode off, sync.
pub open spec fn burst(b: Seq<u8>) -> Seq<Tx> {
    seq![command(BURST_WRITE_REG, 0, 1)] + chunks(b) + seq![
        command(BURST_WRITE_REG, 0, 0),
        command(SYNC_REG, 0, 1),
    ]
}

/// The writes that set an address window, in panel coordinates.
pub open spec fn window(x0: int, y0: int, x1: int, y1: int) -> Seq<Tx> {
    seq![
        command(X_COORDINATE_REG, (x0 + X_START) as u8, (x1 + X_START) as u8),
        command(Y_COORDINATE_REG, (y0 + Y_START) as u8, (y1 + Y_START) as u8),
        command(CHAR_DATA_REG, 0, 0),
        command(SYNC_REG, 0, 1),
    ]
}

/// Rows of width `w` that one burst session takes, at least one.
pub open spec fn session_rows(w: int) -> int {
    if MAX_SESSION_BYTES as int / (2 * w) >= 1 {
        MAX_SESSION_BYTES as int / (2 * w)
    } else {
        1
    }
}

/// The end of the session that starts at row `r` of a block of `h` rows.
pub open spec fn session_end(w: int, h: int, r: int) -> int {
    if r + session_rows(w) <= h {
        r + session_rows(w)
    } else {
        h
    }
}

/// The writes of the session for rows `r` to `e` of a block. Coordinates
/// are cut to eight bits.
pub open spec fn session(x: int, y: int, w: int, p: Seq<u16>, r: int, e: int) -> Seq<Tx> {
    window(x % 256, (y + r) % 256, (x + w - 1) % 256, (y + e - 1) % 256) + burst(
        pixel_bytes(p.subrange(r * w, e * w)),
    )
}

/// The writes for the rows of a block from `r` on: one session after the
/// other.
pub open spec fn sessions(x: int, y: int, w: int, h: int, p: Seq<u16>, r: int) -> Seq<Tx>
    decreases h - r,
{
    if r >= h || w <= 0 {
        Seq::empty()
    } else {
        let e = session_end(w, h, r);
        session(x, y, w, p, r, e) + sessions(x, y, w, h, p, e)
    }
}

/// Whether the rows of every session can be written with the panel's offset
/// in eight bits.
pub open spec fn rows_fit(y: int, w: int, h: int) -> bool {
    forall|r: int|
        0 <= r < h && #[trigger] (r % session_rows(w)) == 0 ==> (y + r) % 256 + Y_START <= 255 && (y
            + session_end(w, h, r) - 1) % 256 + Y_START <= 255
}

/// The writes that send a band of rows of a frame.
pub open spec fn band_writes(frame: Seq<u16>, b: Band) -> Seq<Tx> {
    sessions(
        0,
        b.start as int,
        WIDTH as int,
        b.rows as int,
        frame.subrange(b.start * 160, (b.start + b.rows) * 160),
        0,
    )
}

/// The writes to the bridge that are still to be performed.
pub struct Lcd {
    queue: Vec<Transaction>,
}

impl View for Lcd {
    type V = Seq<Tx>;

    closed spec fn view(&self) -> Seq<Tx> {
        txs(self.queue@)
    }
}

impl Lcd {
    /// Nothing to write.
    pub fn new() -> (lcd: Self)
        ensures
            lcd@ == Seq::<Tx>::empty(),
    {
        let lcd = Lcd { queue: Vec::new() };
        assert(lcd@ =~= Seq::<Tx>::empty());
        lcd
    }

    /// Hands out the writes.
    pub fn into_transactions(self) -> (r: Vec<Transaction>)
        ensures
            txs(r@) == self@,
    {
        self.queue
    }

    fn write_command(&mut self, register: u8, high: u8, low: u8)
        ensures
            final(self)@ == old(self)@ + seq![command(register, high, low)],
    {
        let ghost was = self@;
        self.queue.push(Transaction::Command { register, high, low });
        assert(self@ =~= was + seq![command(register, high, low)]);
    }

    /// Pixel bytes through burst mode, in chunks of at most 160 bytes.
    fn burst_transfer(&mut self, data: &Vec<u8>)
        ensures
            final(self)@ == old(self)@ + burst(data@),
    {
        let ghost was = self@;
        self.write_command(BURST_WRITE_REG, 0x00, 0x01);
        let ghost on = self@;
        let mut at: usize = 0;
        assert(data@.skip(0) =~= data@);
        assert(self@ + chunks(data@) == on + chunks(data@));
        while at < data.len()
            invariant
                at <= data@.len(),
                self@ + chunks(data@.skip(at as int)) == on + chunks(data@),
            decreases data@.len() - at,
        {
            let end: usize = if data.len() - at > BURST_MAX_LENGTH {
                at + BURST_MAX_LENGTH
            } else {
                data.len()
            };
            let ghost rest = data@.skip(at as int);
            let ghost q = self@;
            let bytes = copy_bytes(slice_subrange(data.as_slice(), at, end));
            self.queue.push(Transaction::Chunk { bytes });
            proof {
                let chunk = Tx::Chunk { bytes: bytes@ };
                assert(self@ =~= q + seq![chunk]);
                let tail = data@.skip(end as int);
                if rest.len() > BURST_MAX_LENGTH {
                    assert(bytes@ =~= rest.take(BURST_MAX_LENGTH as int));
                    assert(tail =~= rest.skip(BURST_MAX_LENGTH as int));
                } else {
                    assert(bytes@ =~= rest);
                    assert(tail.len() == 0);
                }
                assert(chunks(rest) =~= seq![chunk] + chunks(tail));
                assert(q + (seq![chunk] + chunks(tail)) =~= (q + seq![chunk]) + chunks(tail));
            }
            at = end;
        }
        proof {
            assert(data@.skip(at as int).len() == 0);
            assert(self@ + chunks(data@.skip(at as int)) =~= self@);
        }
        self.write_command(BURST_WRITE_REG, 0x00, 0x00);
        self.write_command(SYNC_REG, 0x00, 0x01);
        assert(self@ =~= was + burst(data@));
    }

    fn set_address_window(&mut self, x0: u8, y0: u8, x1: u8, y1: u8)
        requires
            y0 + Y_START <= 255,
            y1 + Y_START <= 255,
        ensures
            final(self)@ == old(self)@ + window(x0 as int, y0 as int, x1 as int, y1 as int),
    {
        let ghost was = self@;
        self.write_command(X_COORDINATE_REG, x0 + X_START, x1 + X_START);
        self.write_command(Y_COORDINATE_REG, y0 + Y_START, y1 + Y_START);
        self.write_command(CHAR_DATA_REG, 0x00, 0x00);
        self.write_command(SYNC_REG, 0x00, 0x01);
        assert(self@ =~= was + window(x0 as int, y0 as int, x1 as int, y1 as int));
    }

    /// Draws a block of `w` by `h` RGB565 pixels at `(x, y)`: one window and
    /// one burst for every 16 full-width rows, or as many rows of another
    /// width as fit the same number of bytes.
    pub fn blit(&mut self, x: u16, y: u16, w: u16, h: u16, pixels: &[u16])
        requires
            w > 0,
            w * h <= pixels@.len(),
            h > 0 ==> x + w <= u16::MAX,
            y + h <= u16::MAX,
            rows_fit(y as int, w as int, h as int),
        ensures
            final(self)@ == old(self)@ + sessions(
                x as int,
                y as int,
                w as int,
                h as int,
                pixels@,
                0,
            ),
    {
        let per: usize = MAX_SESSION_BYTES / (2 * w as usize);
        let max_rows: u16 = if per >= 1 {
            per as u16
        } else {
            1
        };
        assert(per <= 2560) by (nonlinear_arith)
            requires
                per == 5_120usize / ((2 * w) as usize),
                w > 0,
        ;
        let ghost sr = session_rows(w as int);
        assert(max_rows == sr);
        let ghost was = self@;
        let ghost all = sessions(x as int, y as int, w as int, h as int, pixels@, 0);
        let mut row: u16 = 0;
        while row < h
            invariant
                w > 0,
                w * h <= pixels@.len(),
                h > 0 ==> x + w <= u16::MAX,
                y + h <= u16::MAX,
                rows_fit(y as int, w as int, h as int),
                sr == session_rows(w as int),
                max_rows == sr,
                sr >= 1,
                row <= h,
                row < h ==> row as int % sr == 0,
                self@ + sessions(x as int, y as int, w as int, h as int, pixels@, row as int) == was
                    + all,
            decreases h - row,
        {
            let rows: u16 = if h - row > max_rows {
                max_rows
            } else {
                h - row
            };
            let end: u16 = row + rows;
            assert(end == session_end(w as int, h as int, row as int));
            proof {
                assert((row as int) % session_rows(w as int) == 0);
                cut_to_byte(x);
                cut_to_byte((y + row) as u16);
                cut_to_byte((x + w - 1) as u16);
                cut_to_byte((y + end - 1) as u16);
                let (a, b, c) = (row as int, end as int, w as int);
                assert(0 <= a * c <= b * c <= h * c) by (nonlinear_arith)
                    requires
                        0 <= a <= b <= h,
                        c > 0,
                ;
                assert(h * c == w * h) by (nonlinear_arith)
                    requires
                        c == w,
                ;
            }
            let ghost q = self@;
            self.set_address_window(
                x as u8,
                (y + row) as u8,
                (x + w - 1) as u8,
                (y + end - 1) as u8,
            );
            assert(pixels@.len() == pixels.len());
            assert(row * w <= usize::MAX && end * w <= usize::MAX);
            let span = slice_subrange(pixels, row as usize * w as usize, end as usize * w as usize);
            let bytes = to_bytes(span);
            self.burst_transfer(&bytes);
            proof {
                let one = session(
                    x as int,
                    y as int,
                    w as int,
                    pixels@,
                    row as int,
                    end as int,
                );
                let rest = sessions(x as int, y as int, w as int, h as int, pixels@, end as int);
                assert(self@ =~= q + one);
                assert(q + (one + rest) =~= (q + one) + rest);
                if end < h {
                    assert((row + sr) % sr == 0) by (nonlinear_arith)
                        requires
                            row as int % sr == 0,
                            sr >= 1,
                    ;
                }
            }
            row = end;
        }
        assert(self@ + sessions(x as int, y as int, w as int, h as int, pixels@, row as int)
            =~= self@);
    }

    /// Draws a band of a frame, over the panel's full width.
    pub fn blit_band(&mut self, fb: &FrameBuffer, band: Band)
        requires
            fb.wf(),
            band.start + band.rows <= HEIGHT,
        ensures
            final(self)@ == old(self)@ + band_writes(fb@.back, band),
    {
        let pixels = fb.band_pixels(band);
        assert(session_rows(WIDTH as int) == 16) by {
            assert(5_120int / 320 == 16);
        }
        self.blit(0, band.start, WIDTH, band.rows, pixels);
    }
}

proof fn cut_to_byte(v: u16)
    ensures
        v as u8 == v % 256,
{
    assert(v as u8 == v % 256) by (bit_vector);
}

fn to_bytes(p: &[u16]) -> (v: Vec<u8>)
    ensures
        v@ == pixel_bytes(p@),
{
    let mut v: Vec<u8> = Vec::new();
    let mut i: usize = 0;
    while i < p.len()
        invariant
            i <= p@.len(),
            v@ == pixel_bytes(p@.take(i as int)),
        decreases p@.len() - i,
    {
        let c: u16 = p[i];
        let ghost q = v@;
        v.push((c / 256) as u8);
        v.push((c % 256) as u8);
        proof {
            let longer = p@.take(i + 1);
            assert(v@ =~= pixel_bytes(longer)) by {
                assert forall|k: int| 0 <= k < v@.len() implies v@[k] == pixel_bytes(longer)[k] by {
                    if k < 2 * i {
                        assert(longer[k / 2] == p@.take(i as int)[k / 2]);
                        assert(q[k] == pixel_bytes(p@.take(i as int))[k]);
                    } else {
                        assert(k / 2 == i);
                    }
                }
            }
        }
        i = i + 1;
    }
    assert(p@.take(i as int) =~= p@);
    v
}

// ---- timing ----

/// Nanoseconds that the bridge takes to accept a block of `w` by `h` pixels:
/// 22.5 microseconds per byte at 400 kHz and nine bits a byte; for every 160
/// bytes an address byte and a pause of 700 microseconds; for every session
/// seven register writes of four bytes and ten microseconds each.
pub open spec fn bus_nanos(w: int, h: int) -> int {
    let bytes = 2 * w * h;
    let n_chunks = (bytes + 159) / 160;
    let n_sessions = (h + session_rows(w) - 1) / session_rows(w);
    bytes * 22_500 + n_chunks * 722_500 + n_sessions * 700_000
}

/// How long the bridge takes to accept a block, in nanoseconds.
pub fn bus_time(w: u16, h: u16) -> (nanos: u64)
    requires
        w > 0,
    ensures
        nanos == bus_nanos(w as int, h as int),
{
    let per: u64 = 5_120 / (2 * w as u64);
    let max_rows: u64 = if per >= 1 {
        per
    } else {
        1
    };
    assert(max_rows == session_rows(w as int));
    assert(max_rows <= 2560) by (nonlinear_arith)
        requires
            max_rows == 1 || max_rows == 5_120u64 / ((2 * w) as u64),
            w > 0,
    ;
    assert(0 <= w * h <= 0xffff * 0xffff) by (nonlinear_arith)
        requires
            0 <= w <= 0xffff,
            0 <= h <= 0xffff,
    ;
    assert(2 * w * h == 2 * (w * h)) by (nonlinear_arith);
    let bytes: u64 = 2 * (w as u64 * h as u64);
    let n_chunks: u64 = (bytes + 159) / 160;
    let n_sessions: u64 = (h as u64 + max_rows - 1) / max_rows;
    assert(n_sessions <= 0xffff + 2560) by (nonlinear_arith)
        requires
            n_sessions == ((h + max_rows - 1) as u64) / max_rows,
            1 <= max_rows <= 2560,
            h <= 0xffff,
    ;
    bytes * 22_500 + n_chunks * 722_500 + n_sessions * 700_000
}

} // verus!
