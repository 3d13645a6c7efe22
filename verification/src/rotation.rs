//! The page rotation: which page is up, when its content is drawn again, when
//! the rotation moves on, and how one page slides out while the next slides
//! in.

use vstd::prelude::*;

use crate::color::BLACK;
use crate::font::{text_fits, text_width, width_of, Font};
use crate::framebuffer::{
    all_drawable, black_frame, draws, fill_rows, paint_all, page_rows, unknown, whole_panel, Draw, FrameBuffer, Frames,
    Op,
};
use crate::panel::{PAGE_HEIGHT, PAGE_TOP, WIDTH};

verus! {

// ---- what can be chosen ----

/// Pages available for the rotation.
#[derive(Clone, Copy, PartialEq, Eq, Structural, Debug)]
pub enum PageKind {
    /// Per-core CPU usage with history sparklines.
    Cpus,
    /// Processor and NVMe temperatures.
    Temps,
    /// Memory usage.
    Mem,
    /// Root filesystem usage and disk operations.
    Disk,
    /// Network rates.
    Network,
    /// Host problems; hidden while there are none.
    Warnings,
    /// Proxmox node: guests, uptime, load.
    Proxmox,
    /// Overall CPU percent with a segment gauge.
    UctronicsCpu,
    /// RAM percent with a segment gauge.
    UctronicsRam,
    /// Processor temperature with a segment gauge.
    UctronicsTemp,
    /// Root filesystem percent with a segment gauge.
    UctronicsDisk,
}

impl PageKind {
    /// Whether the page shows sampled history.
    pub open spec fn sampled(self) -> bool {
        match self {
            PageKind::Cpus => true,
            PageKind::Temps => true,
            PageKind::Mem => true,
            PageKind::Disk => true,
            PageKind::Network => true,
            PageKind::Proxmox => true,
            _ => false,
        }
    }
}

/// Whether any of the chosen pages shows sampled history.
pub fn wants_sampler(pages: &Vec<PageKind>) -> (r: bool)
    ensures
        r == exists|i: int| 0 <= i < pages@.len() && (#[trigger] pages@[i]).sampled(),
{
    let mut i: usize = 0;
    while i < pages.len()
        invariant
            i <= pages@.len(),
            forall|k: int| 0 <= k < i ==> !(#[trigger] pages@[k]).sampled(),
        decreases pages@.len() - i,
    {
        let sampled = match pages[i] {
            PageKind::Cpus => true,
            PageKind::Temps => true,
            PageKind::Mem => true,
            PageKind::Disk => true,
            PageKind::Network => true,
            PageKind::Proxmox => true,
            _ => false,
        };
        if sampled {
            assert(pages@[i as int].sampled());
            return true;
        }
        i = i + 1;
    }
    false
}

/// How the display changes from one page to the next.
#[derive(Clone, Copy, PartialEq, Eq, Structural, Debug)]
pub enum PageMode {
    /// Instant switch.
    Cut,
    /// The next page slides in from the bottom.
    WipeUp,
    /// The next page slides in from the top.
    WipeDown,
    /// The next page slides in from the right.
    WipeLeft,
    /// The next page slides in from the left.
    WipeRight,
}

/// Pixels that a horizontal page wipe moves per frame.
pub const PAGE_WIPE_H_STEP: i32 = 40;

/// Pixels that a vertical page wipe moves per frame.
pub const PAGE_WIPE_V_STEP: i32 = 14;

impl PageMode {
    /// Unit vector of page motion during the change.
    pub open spec fn direction(self) -> (int, int) {
        match self {
            PageMode::Cut => (0, 0),
            PageMode::WipeUp => (0, -1),
            PageMode::WipeDown => (0, 1),
            PageMode::WipeLeft => (-1, 0),
            PageMode::WipeRight => (1, 0),
        }
    }

    /// Pixels that a wipe travels: one page.
    pub open spec fn limit(self) -> int {
        if self.direction().0 != 0 {
            WIDTH as int
        } else {
            PAGE_HEIGHT as int
        }
    }

    /// Pixels that a wipe moves per frame.
    pub open spec fn step(self) -> int {
        if self.direction().0 != 0 {
            PAGE_WIPE_H_STEP as int
        } else {
            PAGE_WIPE_V_STEP as int
        }
    }

    /// Unit vector of page motion during the change; zero for a cut.
    pub fn wipe_dir(self) -> (r: (i32, i32))
        ensures
            (r.0 as int, r.1 as int) == self.direction(),
            -1 <= r.0 <= 1,
            -1 <= r.1 <= 1,
    {
        match self {
            PageMode::Cut => (0, 0),
            PageMode::WipeUp => (0, -1),
            PageMode::WipeDown => (0, 1),
            PageMode::WipeLeft => (-1, 0),
            PageMode::WipeRight => (1, 0),
        }
    }

    fn travel(self) -> (r: (i32, i32))
        ensures
            r.0 == self.limit(),
            r.1 == self.step(),
            61 <= r.0 <= 160,
            14 <= r.1 <= 40,
    {
        if self.wipe_dir().0 != 0 {
            (WIDTH as i32, PAGE_WIPE_H_STEP)
        } else {
            (PAGE_HEIGHT as i32, PAGE_WIPE_V_STEP)
        }
    }
}

// ---- which page comes next ----

/// The first page that wants to show among the `n` pages from `from` on,
/// going round.
pub open spec fn wanted_from(active: Seq<bool>, from: int, n: nat) -> Option<int>
    decreases n,
{
    if n == 0 {
        None
    } else if active[from % active.len() as int] {
        Some(from % active.len() as int)
    } else {
        wanted_from(active, from + 1, (n - 1) as nat)
    }
}

/// The page that the rotation starts on: the first that wants to show, or
/// the first of all.
pub open spec fn first_page(active: Seq<bool>) -> int {
    match wanted_from(active, 0, active.len()) {
        Some(i) => i,
        None => 0,
    }
}

/// The page after `current`: the next one that wants to show, or the same.
pub open spec fn page_after(active: Seq<bool>, current: int) -> int {
    match wanted_from(active, current + 1, (active.len() - 1) as nat) {
        Some(i) => i,
        None => current,
    }
}

proof fn lemma_turn(i: int, n: int)
    requires
        0 <= i < n,
    ensures
        (i + 1) % n == if i + 1 == n {
            0
        } else {
            i + 1
        },
        i % n == i,
{
    vstd::arithmetic::div_mod::lemma_small_mod(i as nat, n as nat);
    if i + 1 == n {
        vstd::arithmetic::div_mod::lemma_mod_self_0(n);
    } else {
        vstd::arithmetic::div_mod::lemma_small_mod((i + 1) as nat, n as nat);
    }
}

/// The first page that wants to show among the `n` pages from `from` on.
fn find_wanted(active: &Vec<bool>, from: usize, n: usize) -> (r: Option<usize>)
    requires
        from < active@.len(),
    ensures
        r is Some == wanted_from(active@, from as int, n as nat) is Some,
        r matches Some(i) ==> wanted_from(active@, from as int, n as nat) == Some(i as int) && i
            < active@.len(),
{
    let mut at: usize = from;
    let mut left: usize = n;
    let ghost mut place: int = from as int;
    let ghost len = active@.len() as int;
    proof {
        lemma_turn(place, len);
    }
    while left > 0
        invariant
            len == active@.len(),
            at < len,
            at == place % len,
            wanted_from(active@, from as int, n as nat) == wanted_from(active@, place, left as nat),
        decreases left,
    {
        if active[at] {
            return Some(at);
        }
        proof {
            lemma_turn(at as int, len);
            vstd::arithmetic::div_mod::lemma_add_mod_noop(place, 1, len);
            if len > 1 {
                vstd::arithmetic::div_mod::lemma_small_mod(1, len as nat);
            }
            assert((place + 1) % len == (at + 1) % len) by {
                vstd::arithmetic::div_mod::lemma_add_mod_noop_right(1, place, len);
            }
            place = place + 1;
        }
        at = if at == active.len() - 1 {
            0
        } else {
            at + 1
        };
        left = left - 1;
    }
    None
}

// ---- the state of the rotation ----

/// What the rotation is doing.
#[derive(Clone, Copy, PartialEq, Eq, Structural, Debug)]
pub enum Stage {
    /// A page is up. `deadline`: when its time is over, known once it is on
    /// the panel. `next_refresh`: when its content is due again.
    /// `deferred`: whether a due refresh has already given way to the header.
    Hold { deadline: Option<u128>, next_refresh: Option<u128>, deferred: bool },
    /// The page is giving way to page `next` and has moved `progress` pixels.
    Wipe { next: usize, progress: i32 },
}

/// What the rotation is set to and doing.
pub struct RotationView {
    pub pages: nat,
    pub mode: PageMode,
    pub refresh: nat,
    pub hold: nat,
    pub current: int,
    pub stage: Stage,
}

/// The stage in which a page comes up.
pub open spec fn fresh_hold() -> Stage {
    Stage::Hold { deadline: None, next_refresh: None, deferred: false }
}

impl RotationView {
    /// Whether the rotation is on a page, or sliding from one to another
    /// within one page's size.
    pub open spec fn wf(self) -> bool {
        &&& 0 <= self.current < self.pages
        &&& self.stage matches Stage::Wipe { next, progress } ==> {
            &&& next < self.pages
            &&& next != self.current
            &&& self.mode.direction() != (0int, 0int)
            &&& 0 < progress < self.mode.limit()
        }
    }

    /// Whether the content of the page is due to be drawn again.
    pub open spec fn due(self, now: u128) -> bool {
        match self.stage {
            Stage::Hold { next_refresh: Some(at), .. } => now >= at,
            Stage::Hold { next_refresh: None, .. } => true,
            Stage::Wipe { .. } => false,
        }
    }

    /// Whether the content is drawn in this frame: when it is due, unless
    /// the header changed and the refresh has not yet given way to it.
    pub open spec fn redraws(self, header_changed: bool, now: u128) -> bool {
        &&& self.due(now)
        &&& !header_changed || (self.stage matches Stage::Hold { deferred, .. } && deferred)
    }

    /// The rotation once it has been decided whether to draw.
    pub open spec fn looked(self, header_changed: bool, now: u128) -> RotationView {
        match self.stage {
            Stage::Hold { deadline, next_refresh, .. } if self.due(now) => RotationView {
                stage: Stage::Hold {
                    deadline,
                    next_refresh,
                    deferred: !self.redraws(header_changed, now),
                },
                ..self
            },
            _ => self,
        }
    }

    /// The rotation once the content has been drawn.
    pub open spec fn refreshed(self, now: u128) -> RotationView {
        match self.stage {
            Stage::Hold { deadline, deferred, .. } => RotationView {
                stage: Stage::Hold {
                    deadline,
                    next_refresh: Some((now + self.refresh) as u128),
                    deferred,
                },
                ..self
            },
            _ => self,
        }
    }

    /// Whether the page that is up has been drawn, so that it is on the panel
    /// once the frame has been sent.
    pub open spec fn drawn(self) -> bool {
        self.stage matches Stage::Hold { next_refresh: Some(_), .. }
    }

    /// When the page's time is over, if a flush ends now.
    pub open spec fn ends(self, now: u128) -> u128 {
        match self.stage {
            Stage::Hold { deadline: Some(at), .. } => at,
            _ => (now + self.hold) as u128,
        }
    }

    /// Whether the page's time is over, if a flush ends now.
    pub open spec fn over(self, now: u128) -> bool {
        self.drawn() && now >= self.ends(now)
    }

    /// The rotation once a frame has reached the panel: the first one with
    /// the page on it starts the page's time.
    pub open spec fn flushed(self, now: u128) -> RotationView {
        match self.stage {
            Stage::Hold { next_refresh: Some(at), deferred, .. } => RotationView {
                stage: Stage::Hold {
                    deadline: Some(self.ends(now)),
                    next_refresh: Some(at),
                    deferred,
                },
                ..self
            },
            _ => self,
        }
    }

    /// The rotation once it has moved on from a page whose time is over.
    pub open spec fn moved_on(self, active: Seq<bool>) -> RotationView {
        let next = page_after(active, self.current);
        if next != self.current && self.mode.direction() != (0int, 0int) {
            RotationView {
                stage: Stage::Wipe { next: next as usize, progress: self.mode.step() as i32 },
                ..self
            }
        } else {
            RotationView { current: next, stage: fresh_hold(), ..self }
        }
    }

    /// The rotation after a frame of a wipe.
    pub open spec fn stepped(self) -> RotationView {
        match self.stage {
            Stage::Wipe { next, progress } => if progress + self.mode.step() < self.mode.limit() {
                RotationView {
                    stage: Stage::Wipe { next, progress: (progress + self.mode.step()) as i32 },
                    ..self
                }
            } else {
                RotationView { current: next as int, stage: fresh_hold(), ..self }
            },
            _ => self,
        }
    }
}

/// Where the two pages of a wipe are: the one that leaves, and the one that
/// comes.
#[derive(Clone, Copy, PartialEq, Eq, Structural, Debug)]
pub struct Shift {
    pub out_x: i32,
    pub out_y: i32,
    pub in_x: i32,
    pub in_y: i32,
}

/// The offsets of the two pages after `progress` pixels: the page that
/// leaves has moved that far, and the other is one page-size behind it.
pub open spec fn shift_at(mode: PageMode, progress: int) -> Shift {
    let (dx, dy) = mode.direction();
    Shift {
        out_x: (dx * progress) as i32,
        out_y: (dy * progress) as i32,
        in_x: (dx * (progress - mode.limit())) as i32,
        in_y: (dy * (progress - mode.limit())) as i32,
    }
}

/// The rotation through the chosen pages.
pub struct Rotation {
    pages: usize,
    mode: PageMode,
    refresh: u128,
    hold: u128,
    current: usize,
    stage: Stage,
}

impl View for Rotation {
    type V = RotationView;

    closed spec fn view(&self) -> RotationView {
        RotationView {
            pages: self.pages as nat,
            mode: self.mode,
            refresh: self.refresh as nat,
            hold: self.hold as nat,
            current: self.current as int,
            stage: self.stage,
        }
    }
}

impl Rotation {
    /// Starts the rotation. `active` says of each page whether it wants to
    /// show; `refresh` and `hold` are nanoseconds.
    pub fn new(active: &Vec<bool>, mode: PageMode, refresh: u128, hold: u128) -> (r: Self)
        requires
            active@.len() > 0,
        ensures
            r@.wf(),
            r@ == (RotationView {
                pages: active@.len(),
                mode,
                refresh: refresh as nat,
                hold: hold as nat,
                current: first_page(active@),
                stage: fresh_hold(),
            }),
    {
        let current: usize = match find_wanted(active, 0, active.len()) {
            Some(i) => i,
            None => 0,
        };
        Rotation {
            pages: active.len(),
            mode,
            refresh,
            hold,
            current,
            stage: Stage::Hold { deadline: None, next_refresh: None, deferred: false },
        }
    }

    /// The page that is up.
    pub fn current(&self) -> (i: usize)
        ensures
            i == self@.current,
    {
        self.current
    }

    /// What the rotation is doing.
    pub fn stage(&self) -> (s: Stage)
        ensures
            s == self@.stage,
    {
        self.stage
    }

    /// Decides whether the content of the page is drawn in this frame. A
    /// refresh that is due on the frame in which the header changed waits
    /// one frame, so that the header has the bus to itself.
    pub fn refresh(&mut self, header_changed: bool, now: u128) -> (redraw: bool)
        requires
            old(self)@.wf(),
        ensures
            final(self)@.wf(),
            redraw == old(self)@.redraws(header_changed, now),
            final(self)@ == old(self)@.looked(header_changed, now),
    {
        match self.stage {
            Stage::Hold { deadline, next_refresh, deferred } => {
                let due = match next_refresh {
                    Some(at) => now >= at,
                    None => true,
                };
                let redraw = due && (!header_changed || deferred);
                if due {
                    self.stage = Stage::Hold { deadline, next_refresh, deferred: !redraw };
                }
                redraw
            },
            Stage::Wipe { .. } => false,
        }
    }

    /// Records that the content has been drawn.
    pub fn refreshed(&mut self, now: u128)
        requires
            old(self)@.wf(),
            now + old(self)@.refresh <= u128::MAX,
        ensures
            final(self)@.wf(),
            final(self)@ == old(self)@.refreshed(now),
    {
        if let Stage::Hold { deadline, deferred, .. } = self.stage {
            let at: u128 = now + self.refresh;
            self.stage = Stage::Hold { deadline, next_refresh: Some(at), deferred };
        }
    }

    /// Records that a frame has reached the panel, and says whether the
    /// page's time is over. The time runs from the first such frame that has
    /// the page on it.
    pub fn flushed(&mut self, now: u128) -> (over: bool)
        requires
            old(self)@.wf(),
            now + old(self)@.hold <= u128::MAX,
        ensures
            final(self)@.wf(),
            final(self)@ == old(self)@.flushed(now),
            over == old(self)@.over(now),
    {
        match self.stage {
            Stage::Hold { deadline, next_refresh: Some(refresh), deferred } => {
                let at: u128 = match deadline {
                    Some(at) => at,
                    None => now + self.hold,
                };
                self.stage = Stage::Hold {
                    deadline: Some(at),
                    next_refresh: Some(refresh),
                    deferred,
                };
                now >= at
            },
            _ => false,
        }
    }

    /// Moves on to the next page that wants to show, at once or by a wipe.
    pub fn advance(&mut self, active: &Vec<bool>)
        requires
            old(self)@.wf(),
            active@.len() == old(self)@.pages,
        ensures
            final(self)@.wf(),
            final(self)@ == old(self)@.moved_on(active@),
    {
        let from: usize = if self.current + 1 == active.len() {
            0
        } else {
            self.current + 1
        };
        proof {
            lemma_turn(self.current as int, active@.len() as int);
            lemma_wanted_mod(
                active@,
                self.current + 1,
                from as int,
                (active@.len() - 1) as nat,
            );
        }
        let next: usize = match find_wanted(active, from, active.len() - 1) {
            Some(i) => i,
            None => self.current,
        };
        let (dx, dy) = self.mode.wipe_dir();
        if next != self.current && (dx != 0 || dy != 0) {
            let (_, step) = self.mode.travel();
            self.stage = Stage::Wipe { next, progress: step };
        } else {
            self.current = next;
            self.stage = Stage::Hold { deadline: None, next_refresh: None, deferred: false };
        }
    }

    /// Where the pages of the running wipe are, and which page comes.
    pub fn shift(&self) -> (r: Option<(usize, Shift)>)
        requires
            self@.wf(),
        ensures
            r == (match self@.stage {
                Stage::Wipe { next, progress } => Some(
                    (next, shift_at(self@.mode, progress as int)),
                ),
                Stage::Hold { .. } => None,
            }),
    {
        match self.stage {
            Stage::Wipe { next, progress } => {
                let (dx, dy) = self.mode.wipe_dir();
                let (limit, _) = self.mode.travel();
                proof {
                    lemma_unit(dx as int, progress as int);
                    lemma_unit(dy as int, progress as int);
                    lemma_unit(dx as int, progress - limit);
                    lemma_unit(dy as int, progress - limit);
                }
                let shift = Shift {
                    out_x: dx * progress,
                    out_y: dy * progress,
                    in_x: dx * (progress - limit),
                    in_y: dy * (progress - limit),
                };
                Some((next, shift))
            },
            Stage::Hold { .. } => None,
        }
    }

    /// Records that a frame of the wipe has been shown.
    pub fn step(&mut self)
        requires
            old(self)@.wf(),
        ensures
            final(self)@.wf(),
            final(self)@ == old(self)@.stepped(),
    {
        if let Stage::Wipe { next, progress } = self.stage {
            let (limit, step) = self.mode.travel();
            if progress + step < limit {
                self.stage = Stage::Wipe { next, progress: progress + step };
            } else {
                self.current = next;
                self.stage = Stage::Hold { deadline: None, next_refresh: None, deferred: false };
            }
        }
    }
}

/// The product with one, zero or minus one is as small as the other factor.
proof fn lemma_unit(d: int, p: int)
    requires
        -1 <= d <= 1,
    ensures
        d * p == p || d * p == 0 || d * p == -p,
{
    if d == 0 {
        assert(0 * p == 0) by (nonlinear_arith);
    } else if d == 1 {
        assert(1 * p == p) by (nonlinear_arith);
    } else {
        assert((-1) * p == -p) by (nonlinear_arith);
    }
}

/// Only the place on the round matters.
proof fn lemma_wanted_mod(active: Seq<bool>, a: int, b: int, n: nat)
    requires
        active.len() > 0,
        a % active.len() as int == b % active.len() as int,
    ensures
        wanted_from(active, a, n) == wanted_from(active, b, n),
    decreases n,
{
    if n > 0 {
        let len = active.len() as int;
        vstd::arithmetic::div_mod::lemma_add_mod_noop_right(1, a, len);
        vstd::arithmetic::div_mod::lemma_add_mod_noop_right(1, b, len);
        lemma_wanted_mod(active, a + 1, b + 1, (n - 1) as nat);
    }
}

// ---- what a frame shows ----

/// The frame with a page up, moved by the given offset, over what is there.
pub open spec fn with_page(frame: Seq<u16>, page: Seq<Draw>, x: int, y: int) -> Seq<u16> {
    paint_all(frame, page, page_rows(), x, PAGE_TOP + y)
}

/// The frame with a blank page area.
pub open spec fn blank_page(frame: Seq<u16>) -> Seq<u16> {
    fill_rows(frame, PAGE_TOP as int, 80, BLACK)
}

/// Draws a page at its place.
pub fn show_page(fb: &mut FrameBuffer, page: &Vec<Op>)
    requires
        old(fb).wf(),
        all_drawable(draws(page@), 0, PAGE_TOP as int),
    ensures
        final(fb).wf(),
        final(fb)@ == (Frames {
            back: with_page(blank_page(old(fb)@.back), draws(page@), 0, 0),
            shown: old(fb)@.shown,
        }),
{
    fb.clear_page_area();
    fb.draw_page(page, 0, 0);
}

/// Draws the two pages of a wipe.
pub fn show_wipe(fb: &mut FrameBuffer, leaving: &Vec<Op>, coming: &Vec<Op>, shift: Shift)
    requires
        old(fb).wf(),
        PAGE_TOP + shift.out_y <= i32::MAX,
        PAGE_TOP + shift.in_y <= i32::MAX,
        all_drawable(draws(leaving@), shift.out_x as int, PAGE_TOP + shift.out_y),
        all_drawable(draws(coming@), shift.in_x as int, PAGE_TOP + shift.in_y),
    ensures
        final(fb).wf(),
        final(fb)@ == (Frames {
            back: with_page(
                with_page(
                    blank_page(old(fb)@.back),
                    draws(leaving@),
                    shift.out_x as int,
                    shift.out_y as int,
                ),
                draws(coming@),
                shift.in_x as int,
                shift.in_y as int,
            ),
            shown: old(fb)@.shown,
        }),
{
    fb.clear_page_area();
    fb.draw_page(leaving, shift.out_x, shift.out_y);
    fb.draw_page(coming, shift.in_x, shift.in_y);
}

/// The text of an exit screen, centered.
pub open spec fn exit_text(text: Seq<char>, color: u16) -> Draw {
    let w = width_of(Font::Large, text);
    Draw::Text {
        font: Font::Large,
        text,
        x: if w <= WIDTH {
            (WIDTH - w) / 2
        } else {
            0
        },
        y: 30,
        color,
    }
}

/// A full-screen message, to be left on the panel at the end.
pub fn exit_screen(text: &str, color: u16) -> (fb: FrameBuffer)
    requires
        exit_text(text@, color).drawable(0, 0),
    ensures
        fb.wf(),
        fb@.shown == unknown(),
        fb@.back == paint_all(
            black_frame(),
            seq![exit_text(text@, color)],
            whole_panel(),
            0,
            0,
        ),
{
    let mut fb = FrameBuffer::new();
    assert(width_of(Font::Large, text@) == text@.len() * 10);
    let w: i32 = text_width(Font::Large, text);
    let x: i32 = if w <= WIDTH as i32 {
        (WIDTH as i32 - w) / 2
    } else {
        0
    };
    let mut ops: Vec<Op> = Vec::new();
    ops.push(Op::Text { font: Font::Large, text: text.to_owned(), x, y: 30, color });
    assert(draws(ops@) =~= seq![exit_text(text@, color)]);
    assert(all_drawable(draws(ops@), 0, 0)) by {
        assert(text_fits(Font::Large, text@.len(), x as int, 30));
    }
    fb.draw_panel(&ops);
    fb
}

} // verus!
