//! The header line above the pages: address and host name. Text wider than
//! the panel moves or turns pages by the selected mode; shorter text sits
//! still.

use vstd::prelude::*;
use vstd::slice::slice_subrange;

use crate::color::{BLACK, WHITE};
use crate::font::{
    character_size, character_spacing, lemma_medium_width, lemma_text_fits, text_width, width_of, Font,
};
use crate::framebuffer::{
    all_drawable, draws, fill_rows, header_rows, lemma_clipped, paint_all, same_ops, spared,
    whole_panel, Draw, FrameBuffer, Op,
};
use crate::panel::{HEADER_H, PIXELS, WIDTH};
use crate::text::{
    chars_of, find, find_in, lemma_run_back_len, lemma_run_facts, string_of, trim, trim_start,
    trimmed, Class,
};

verus! {

/// How the header shows text that does not fit, or turns from the address to
/// the host name.
#[derive(Clone, Copy, PartialEq, Eq, Structural, Debug)]
pub enum HeaderMode {
    /// Page by page; instant swap.
    Cut,
    /// Continuous marquee, one pixel per frame.
    Slide,
    /// Page by page; the next page slides in from the bottom.
    WipeUp,
    /// Page by page; the next page slides in from the top.
    WipeDown,
    /// Page by page; the next page slides in from the right.
    WipeLeft,
    /// Page by page; the next page slides in from the left.
    WipeRight,
}

impl HeaderMode {
    /// Unit vector of motion during a wipe.
    pub open spec fn direction(self) -> (int, int) {
        match self {
            HeaderMode::Cut => (0, 0),
            HeaderMode::Slide => (0, 0),
            HeaderMode::WipeUp => (0, -1),
            HeaderMode::WipeDown => (0, 1),
            HeaderMode::WipeLeft => (-1, 0),
            HeaderMode::WipeRight => (1, 0),
        }
    }

    /// Pixels that a wipe travels.
    pub open spec fn limit(self) -> int {
        if self.direction().0 != 0 {
            WIDTH as int
        } else {
            HEADER_H as int
        }
    }

    /// Pixels that a wipe moves per frame.
    pub open spec fn step(self) -> int {
        if self.direction().0 != 0 {
            WIPE_H_STEP as int
        } else {
            WIPE_V_STEP as int
        }
    }

    /// Unit vector of motion during a wipe.
    pub fn wipe_dir(self) -> (r: (i32, i32))
        ensures
            (r.0 as int, r.1 as int) == self.direction(),
            -1 <= r.0 <= 1,
            -1 <= r.1 <= 1,
    {
        match self {
            HeaderMode::Cut => (0, 0),
            HeaderMode::Slide => (0, 0),
            HeaderMode::WipeUp => (0, -1),
            HeaderMode::WipeDown => (0, 1),
            HeaderMode::WipeLeft => (-1, 0),
            HeaderMode::WipeRight => (1, 0),
        }
    }
}

/// Where header text sits when it does not fill the panel.
#[derive(Clone, Copy, PartialEq, Eq, Structural, Debug)]
pub enum HeaderAlign {
    Left,
    Center,
    Right,
}

/// Pixels between the end of the marquee text and its next copy.
pub const SCROLL_GAP_PX: i32 = 24;

/// Pixels per frame of a sideways wipe.
pub const WIPE_H_STEP: i32 = 16;

/// Pixels per frame of an upward or downward wipe.
pub const WIPE_V_STEP: i32 = 3;

/// What a paged header is doing.
#[derive(Clone, Copy, PartialEq, Eq, Structural, Debug)]
pub enum Phase {
    /// Showing a page until this time.
    Hold { deadline: u128 },
    /// In transition, this many pixels on.
    Wipe { progress: i32 },
}

// ---- pages of text ----

/// A text cut at every occurrence of a separator, from the left.
pub open spec fn cut_at(s: Seq<char>, sep: Seq<char>) -> Seq<Seq<char>>
    decreases s.len(),
{
    match find(s, sep) {
        Some(i) => if sep.len() > 0 && 0 <= i && i + sep.len() <= s.len() {
            seq![s.take(i)] + cut_at(s.skip(i + sep.len()), sep)
        } else {
            seq![s]
        },
        None => seq![s],
    }
}

/// A text cut into pieces of `n` characters, each trimmed.
pub open spec fn paginated(s: Seq<char>, n: nat) -> Seq<Seq<char>>
    decreases s.len(),
{
    if s.len() == 0 || n == 0 {
        Seq::empty()
    } else if s.len() <= n {
        seq![trim(s)]
    } else {
        seq![trim(s.take(n as int))] + paginated(s.skip(n as int), n)
    }
}

/// Characters of a font that fit the panel's width, at least one.
pub open spec fn chars_per_page(font: Font) -> nat {
    WIDTH as nat / font.width()
}

/// The pages of a list of parts.
pub open spec fn pages_of(parts: Seq<Seq<char>>) -> Seq<Seq<char>>
    decreases parts.len(),
{
    if parts.len() == 0 {
        Seq::empty()
    } else {
        pages_of(parts.drop_last()) + paginated(parts.last(), chars_per_page(Font::Medium))
    }
}

/// The pages of a header text: one per part between the dashes, further cut
/// where a part is too wide.
pub open spec fn header_pages(text: Seq<char>) -> Seq<Seq<char>> {
    pages_of(cut_at(text, " - "@))
}

/// What a list of strings holds.
pub open spec fn texts(v: Seq<String>) -> Seq<Seq<char>> {
    Seq::new(v.len(), |i: int| v[i]@)
}

proof fn lemma_trim_len(s: Seq<char>)
    ensures
        trim(s).len() <= s.len(),
{
    lemma_run_facts(s, Class::White);
    lemma_run_back_len(trim_start(s), Class::White);
}

proof fn lemma_chars_per_page(font: Font)
    ensures
        16 <= chars_per_page(font) <= 40,
        font == Font::Medium ==> chars_per_page(font) == 17,
{
    match font {
        Font::Tiny => {
            assert(160nat / 4 == 40);
        },
        Font::Small => {
            assert(160nat / 6 == 26);
        },
        Font::Medium => {
            assert(160nat / 9 == 17);
        },
        Font::Large => {
            assert(160nat / 10 == 16);
        },
        Font::LargeLatin => {
            assert(160nat / 10 == 16);
        },
    }
}

/// Every page of a cut text fits its number of characters.
pub proof fn lemma_paginated_fits(s: Seq<char>, n: nat)
    ensures
        forall|i: int| 0 <= i < paginated(s, n).len() ==> (#[trigger] paginated(s, n)[i]).len() <= n,
    decreases s.len(),
{
    if s.len() == 0 || n == 0 {
    } else if s.len() <= n {
        lemma_trim_len(s);
    } else {
        lemma_trim_len(s.take(n as int));
        lemma_paginated_fits(s.skip(n as int), n);
        let rest = paginated(s.skip(n as int), n);
        assert forall|i: int| 0 <= i < paginated(s, n).len() implies (#[trigger] paginated(
            s,
            n,
        )[i]).len() <= n by {
            if i > 0 {
                assert(paginated(s, n)[i] == rest[i - 1]);
            }
        }
    }
}

proof fn lemma_pages_fit(parts: Seq<Seq<char>>)
    ensures
        forall|i: int| 0 <= i < pages_of(parts).len() ==> (#[trigger] pages_of(parts)[i]).len() <= 17,
    decreases parts.len(),
{
    if parts.len() > 0 {
        lemma_pages_fit(parts.drop_last());
        lemma_chars_per_page(Font::Medium);
        lemma_paginated_fits(parts.last(), chars_per_page(Font::Medium));
        let a = pages_of(parts.drop_last());
        let b = paginated(parts.last(), 17);
        assert forall|i: int| 0 <= i < pages_of(parts).len() implies (#[trigger] pages_of(
            parts,
        )[i]).len() <= 17 by {
            if i < a.len() {
                assert(pages_of(parts)[i] == a[i]);
            } else {
                assert(pages_of(parts)[i] == b[i - a.len()]);
            }
        }
    }
}

/// No page of a header text has more than 17 characters.
pub proof fn lemma_header_pages_fit(text: Seq<char>)
    ensures
        forall|i: int|
            0 <= i < header_pages(text).len() ==> (#[trigger] header_pages(text)[i]).len() <= 17,
{
    lemma_pages_fit(cut_at(text, " - "@));
}

/// Whether every character of a text occurs in another.
pub open spec fn made_of(t: Seq<char>, s: Seq<char>) -> bool {
    forall|k: int| 0 <= k < t.len() ==> s.contains(#[trigger] t[k])
}

proof fn lemma_part_made_of(s: Seq<char>, i: int, j: int)
    requires
        0 <= i <= j <= s.len(),
    ensures
        made_of(s.subrange(i, j), s),
{
    assert forall|k: int| 0 <= k < s.subrange(i, j).len() implies s.contains(
        #[trigger] s.subrange(i, j)[k],
    ) by {
        assert(s.subrange(i, j)[k] == s[i + k]);
    }
}

proof fn lemma_made_of_made_of(a: Seq<char>, b: Seq<char>, c: Seq<char>)
    requires
        made_of(a, b),
        made_of(b, c),
    ensures
        made_of(a, c),
{
    assert forall|k: int| 0 <= k < a.len() implies c.contains(#[trigger] a[k]) by {
        assert(b.contains(a[k]));
        let m = choose|m: int| 0 <= m < b.len() && b[m] == a[k];
        assert(c.contains(b[m]));
    }
}

proof fn lemma_trim_made_of(s: Seq<char>)
    ensures
        made_of(trim(s), s),
{
    lemma_run_facts(s, Class::White);
    let t = trim_start(s);
    lemma_run_back_len(t, Class::White);
    assert(exists|i: int, j: int| 0 <= i <= j <= s.len() && trim(s) == #[trigger] s.subrange(i, j))
        by {
        let i = s.len() - t.len();
        let j = i + trim(s).len();
        assert(trim(s) =~= s.subrange(i, j));
    }
    let (i, j) = choose|i: int, j: int|
        0 <= i <= j <= s.len() && trim(s) == #[trigger] s.subrange(i, j);
    lemma_part_made_of(s, i, j);
}

proof fn lemma_paginated_made_of(s: Seq<char>, n: nat)
    ensures
        forall|i: int| 0 <= i < paginated(s, n).len() ==> made_of(#[trigger] paginated(s, n)[i], s),
    decreases s.len(),
{
    if s.len() == 0 || n == 0 {
    } else if s.len() <= n {
        lemma_trim_made_of(s);
    } else {
        let head = s.take(n as int);
        let tail = s.skip(n as int);
        lemma_trim_made_of(head);
        lemma_part_made_of(s, 0, n as int);
        lemma_made_of_made_of(trim(head), head, s);
        lemma_paginated_made_of(tail, n);
        lemma_part_made_of(s, n as int, s.len() as int);
        assert(tail =~= s.subrange(n as int, s.len() as int));
        assert forall|i: int| 0 <= i < paginated(s, n).len() implies made_of(
            #[trigger] paginated(s, n)[i],
            s,
        ) by {
            if i > 0 {
                assert(paginated(s, n)[i] == paginated(tail, n)[i - 1]);
                lemma_made_of_made_of(paginated(s, n)[i], tail, s);
            }
        }
    }
}

proof fn lemma_cut_made_of(s: Seq<char>, sep: Seq<char>)
    ensures
        forall|i: int| 0 <= i < cut_at(s, sep).len() ==> made_of(#[trigger] cut_at(s, sep)[i], s),
    decreases s.len(),
{
    lemma_part_made_of(s, 0, s.len() as int);
    assert(s.subrange(0, s.len() as int) =~= s);
    if let Some(at) = find(s, sep) {
        if sep.len() > 0 && 0 <= at && at + sep.len() <= s.len() {
            let from = at + sep.len();
            let tail = s.skip(from);
            lemma_part_made_of(s, 0, at);
            lemma_part_made_of(s, from, s.len() as int);
            assert(tail =~= s.subrange(from, s.len() as int));
            lemma_cut_made_of(tail, sep);
            assert forall|i: int| 0 <= i < cut_at(s, sep).len() implies made_of(
                #[trigger] cut_at(s, sep)[i],
                s,
            ) by {
                if i > 0 {
                    assert(cut_at(s, sep)[i] == cut_at(tail, sep)[i - 1]);
                    lemma_made_of_made_of(cut_at(s, sep)[i], tail, s);
                }
            }
        }
    }
}

proof fn lemma_pages_made_of(parts: Seq<Seq<char>>, s: Seq<char>)
    requires
        forall|i: int| 0 <= i < parts.len() ==> made_of(#[trigger] parts[i], s),
    ensures
        forall|i: int| 0 <= i < pages_of(parts).len() ==> made_of(#[trigger] pages_of(parts)[i], s),
    decreases parts.len(),
{
    if parts.len() > 0 {
        let init = parts.drop_last();
        assert forall|i: int| 0 <= i < init.len() implies made_of(#[trigger] init[i], s) by {
            assert(init[i] == parts[i]);
        }
        lemma_pages_made_of(init, s);
        let n = chars_per_page(Font::Medium);
        lemma_paginated_made_of(parts.last(), n);
        let a = pages_of(init);
        let b = paginated(parts.last(), n);
        assert forall|i: int| 0 <= i < pages_of(parts).len() implies made_of(
            #[trigger] pages_of(parts)[i],
            s,
        ) by {
            if i < a.len() {
                assert(pages_of(parts)[i] == a[i]);
            } else {
                assert(pages_of(parts)[i] == b[i - a.len()]);
                assert(made_of(parts[parts.len() - 1], s));
                lemma_made_of_made_of(b[i - a.len()], parts.last(), s);
            }
        }
    }
}

/// Pages of a text without line feeds have none either.
pub proof fn lemma_pages_one_line(text: Seq<char>)
    requires
        !text.contains('\n'),
    ensures
        forall|i: int|
            0 <= i < header_pages(text).len() ==> !(#[trigger] header_pages(text)[i]).contains('\n'),
{
    let parts = cut_at(text, " - "@);
    lemma_cut_made_of(text, " - "@);
    lemma_pages_made_of(parts, text);
    assert forall|i: int| 0 <= i < header_pages(text).len() implies !(#[trigger] header_pages(
        text,
    )[i]).contains('\n') by {
        let page = header_pages(text)[i];
        assert(made_of(page, text));
        if page.contains('\n') {
            let k = choose|k: int| 0 <= k < page.len() && page[k] == '\n';
            assert(text.contains(page[k]));
        }
    }
}

/// Splits text into pages that each fit the panel's width.
pub fn paginate(text: &[char], font: Font) -> (r: Vec<String>)
    ensures
        texts(r@) == paginated(text@, chars_per_page(font)),
{
    let advance: u32 = character_size(font).0 + character_spacing(font);
    let n: usize = (WIDTH as u32 / advance) as usize;
    let mut r: Vec<String> = Vec::new();
    let mut at: usize = 0;
    let ghost all = paginated(text@, chars_per_page(font));
    assert(texts(r@) =~= Seq::<Seq<char>>::empty());
    assert(text@.skip(0) =~= text@);
    assert(texts(r@) + all =~= all);
    proof {
        lemma_chars_per_page(font);
    }
    assert(n == chars_per_page(font));
    while at < text.len()
        invariant
            16 <= n <= 40,
            n == chars_per_page(font),
            at <= text@.len(),
            texts(r@) + paginated(text@.skip(at as int), n as nat) == all,
        decreases text@.len() - at,
    {
        let end: usize = if text.len() - at > n {
            at + n
        } else {
            text.len()
        };
        let ghost rest = text@.skip(at as int);
        let ghost was = r@;
        let page = string_of(trimmed(slice_subrange(text, at, end)));
        r.push(page);
        proof {
            let tail = text@.skip(end as int);
            let piece = text@.subrange(at as int, end as int);
            if rest.len() > n {
                assert(piece =~= rest.take(n as int));
                assert(tail =~= rest.skip(n as int));
            } else {
                assert(piece =~= rest);
                assert(tail.len() == 0);
            }
            assert(paginated(rest, n as nat) =~= seq![page@] + paginated(tail, n as nat));
            assert(texts(r@) =~= texts(was) + seq![page@]);
            assert(texts(was) + (seq![page@] + paginated(tail, n as nat)) =~= (texts(was)
                + seq![page@]) + paginated(tail, n as nat));
        }
        at = end;
    }
    assert(texts(r@) + paginated(text@.skip(at as int), n as nat) =~= texts(r@));
    r
}

fn append_pages(r: &mut Vec<String>, part: &[char])
    ensures
        texts(final(r)@) == texts(old(r)@) + paginated(part@, chars_per_page(Font::Medium)),
{
    let ghost was = r@;
    let mut more = paginate(part, Font::Medium);
    let ghost added = more@;
    r.append(&mut more);
    assert(texts(r@) =~= texts(was) + texts(added));
}

fn build_pages(text: &[char]) -> (r: Vec<String>)
    ensures
        texts(r@) == header_pages(text@),
{
    let sep = chars_of(" - ");
    proof {
        reveal_strlit(" - ");
    }
    let mut r: Vec<String> = Vec::new();
    let mut rest = text;
    let ghost all = cut_at(text@, " - "@);
    let ghost mut done: Seq<Seq<char>> = Seq::empty();
    assert(texts(r@) =~= Seq::<Seq<char>>::empty());
    assert(done + all =~= all);
    loop
        invariant_except_break
            done + cut_at(rest@, " - "@) == all,
        invariant
            sep@ == " - "@,
            sep@.len() == 3,
            texts(r@) == pages_of(done),
        ensures
            done == all,
        decreases rest@.len(),
    {
        match find_in(rest, &sep) {
            Some(i) => {
                let part = slice_subrange(rest, 0, i);
                append_pages(&mut r, part);
                let tail = slice_subrange(rest, i + 3, rest.len());
                proof {
                    assert(part@ == rest@.take(i as int));
                    assert(tail@ == rest@.skip(i + 3));
                    let more = done.push(part@);
                    assert(more.drop_last() =~= done);
                    assert(done + (seq![part@] + cut_at(tail@, " - "@)) =~= more + cut_at(
                        tail@,
                        " - "@,
                    ));
                    done = more;
                }
                rest = tail;
            },
            None => {
                append_pages(&mut r, rest);
                proof {
                    let more = done.push(rest@);
                    assert(more.drop_last() =~= done);
                    assert(more =~= done + cut_at(rest@, " - "@));
                    done = more;
                }
                break;
            },
        }
    }
    r
}

// ---- the header ----

/// What a header holds.
#[verifier::ext_equal]
pub struct HeaderView {
    pub text: Seq<char>,
    pub mode: HeaderMode,
    pub align: HeaderAlign,
    /// How long each page shows, in nanoseconds.
    pub hold: int,
    pub color: u16,
    /// Whether pages turn only when the page rotation does.
    pub sync: bool,
    /// Whether the page rotation has just turned.
    pub armed: bool,
    /// How far the marquee has moved.
    pub offset: int,
    pub pages: Seq<Seq<char>>,
    pub page: int,
    pub phase: Phase,
    /// What the last frame left in the band.
    pub last: Seq<Draw>,
}

/// One frame of the header: what it draws, whether that is clipped to the
/// header band, which of it reaches the band, whether the band's content
/// changed, and the header behind it.
pub struct HeaderFrame {
    pub ops: Seq<Draw>,
    pub clipped: bool,
    pub shows: Seq<Draw>,
    pub changed: bool,
    pub next: HeaderView,
}

impl HeaderView {
    /// Period of the marquee: the text and the gap to its next copy.
    pub open spec fn span(self) -> int {
        width_of(Font::Medium, self.text) + SCROLL_GAP_PX
    }

    /// Whether the state hangs together.
    pub open spec fn wf(self) -> bool {
        &&& self.pages == header_pages(self.text)
        &&& 18 * self.text.len() + 24 <= i32::MAX
        &&& 0 <= self.offset < self.span()
        &&& self.pages.len() > 0 ==> 0 <= self.page < self.pages.len()
        &&& self.phase matches Phase::Wipe { progress } ==> 0 <= progress < self.mode.limit()
            && self.mode.direction() != (0int, 0int)
    }

    /// Whether the text is too wide for the panel.
    pub open spec fn scrolling(self) -> bool {
        width_of(Font::Medium, self.text) > WIDTH
    }

    /// Left edge of a text by the alignment.
    pub open spec fn left_edge(self, text: Seq<char>) -> int {
        let slack = WIDTH - width_of(Font::Medium, text);
        match self.align {
            HeaderAlign::Left => 0,
            HeaderAlign::Center => if slack > 0 {
                slack / 2
            } else {
                0
            },
            HeaderAlign::Right => if slack > 0 {
                slack
            } else {
                0
            },
        }
    }

    /// The drawing of a text at a point.
    pub open spec fn line(self, text: Seq<char>, x: int, y: int) -> Draw {
        Draw::Text { font: Font::Medium, text, x, y, color: self.color }
    }

    /// Whether the page has been held long enough.
    pub open spec fn due(self, now: int) -> bool {
        self.phase matches Phase::Hold { deadline } && now >= deadline
    }

    /// Whether the header may turn its page now: in sync with the page
    /// rotation, or else unless the bus is busy.
    pub open spec fn may_turn(self, busy: bool, now: int) -> bool {
        if self.sync {
            self.armed && self.due(now)
        } else {
            !busy && self.due(now)
        }
    }

    /// The page behind the current one.
    pub open spec fn next_page(self) -> int {
        (self.page + 1) % (self.pages.len() as int)
    }

    /// What the band shows of a text at rest.
    pub open spec fn resting(self, text: Seq<char>) -> Seq<Draw> {
        seq![self.line(text, self.left_edge(text), 0)]
    }

    /// What the band shows while nothing moves.
    pub open spec fn at_rest(self) -> Seq<Draw> {
        if self.mode == HeaderMode::Slide || self.pages.len() <= 1 {
            self.resting(self.text)
        } else {
            self.resting(self.pages[self.page])
        }
    }

    /// A frame that draws the given operations, all of which reach the band,
    /// in the given state of the header.
    pub open spec fn drawing(self, ops: Seq<Draw>) -> HeaderFrame {
        HeaderFrame { ops, clipped: false, shows: ops, changed: false, next: self }
    }

    /// A frame of the marquee.
    pub open spec fn slide_frame(self) -> HeaderFrame {
        if self.scrolling() {
            HeaderFrame {
                next: HeaderView { offset: (self.offset + 1) % self.span(), ..self },
                ..self.drawing(
                    seq![
                        self.line(self.text, -self.offset, 0),
                        self.line(self.text, -self.offset + self.span(), 0),
                    ],
                )
            }
        } else {
            self.drawing(self.resting(self.text))
        }
    }

    /// A frame with instant page swaps.
    pub open spec fn cut_frame(self, busy: bool, now: int) -> HeaderFrame {
        let next = if self.may_turn(busy, now) {
            HeaderView {
                page: self.next_page(),
                phase: Phase::Hold { deadline: (now + self.hold) as u128 },
                ..self
            }
        } else {
            self
        };
        next.drawing(next.resting(next.pages[next.page]))
    }

    /// A frame with pages that slide: the old page moves out in the wipe's
    /// direction while the new one trails one screen behind it. As long as
    /// the wipe has not moved, the new page is still outside the band.
    pub open spec fn wipe_frame(self, busy: bool, now: int) -> HeaderFrame {
        let old = self.pages[self.page];
        match self.phase {
            Phase::Hold { .. } => HeaderFrame {
                next: if self.may_turn(busy, now) {
                    HeaderView { phase: Phase::Wipe { progress: 0 }, ..self }
                } else {
                    self
                },
                ..self.drawing(self.resting(old))
            },
            Phase::Wipe { progress } => {
                let (dx, dy) = self.mode.direction();
                let new = self.pages[self.next_page()];
                let behind = progress - self.mode.limit();
                let further = progress + self.mode.step();
                let ops = seq![
                    self.line(old, self.left_edge(old) + dx * progress, dy * progress),
                    self.line(new, self.left_edge(new) + dx * behind, dy * behind),
                ];
                HeaderFrame {
                    clipped: true,
                    shows: if progress == 0 {
                        self.resting(old)
                    } else {
                        ops
                    },
                    next: if further >= self.mode.limit() {
                        HeaderView {
                            page: self.next_page(),
                            phase: Phase::Hold { deadline: (now + self.hold) as u128 },
                            ..self
                        }
                    } else {
                        HeaderView { phase: Phase::Wipe { progress: further as i32 }, ..self }
                    },
                    ..self.drawing(ops)
                }
            },
        }
    }

    /// What the next frame draws, by the header's mode.
    pub open spec fn mode_frame(self, busy: bool, now: int) -> HeaderFrame {
        if self.mode == HeaderMode::Slide {
            self.slide_frame()
        } else if self.pages.len() <= 1 {
            self.drawing(self.resting(self.text))
        } else if self.mode == HeaderMode::Cut {
            self.cut_frame(busy, now)
        } else {
            self.wipe_frame(busy, now)
        }
    }

    /// The next frame. The band's content changes where it differs from what
    /// the last frame left; a trigger is used up.
    pub open spec fn frame(self, busy: bool, now: int) -> HeaderFrame {
        let f = self.mode_frame(busy, now);
        HeaderFrame {
            changed: f.shows != self.last,
            next: HeaderView { armed: false, last: f.shows, ..f.next },
            ..f
        }
    }

    /// The panel's pixels with the next frame of the header drawn into a
    /// cleared band.
    pub open spec fn drawn(self, back: Seq<u16>, busy: bool, now: int) -> Seq<u16> {
        let f = self.frame(busy, now);
        paint_all(
            fill_rows(back, 0, HEADER_H as int, BLACK),
            f.ops,
            if f.clipped {
                header_rows()
            } else {
                whole_panel()
            },
            0,
            0,
        )
    }
}

/// Whether two frames agree below the header band.
pub open spec fn same_below(a: Seq<u16>, b: Seq<u16>) -> bool {
    forall|i: int| HEADER_H * 160 <= i < PIXELS ==> #[trigger] a[i] == b[i]
}

/// Text lines of the header's font at the top leave what is below the band.
proof fn lemma_lines_stay(ds: Seq<Draw>)
    requires
        forall|k: int|
            0 <= k < ds.len() ==> (#[trigger] ds[k] matches Draw::Text { font, text, y, .. } && font
                == Font::Medium && y == 0 && !text.contains('\n')),
    ensures
        forall|i: int| HEADER_H * 160 <= i < PIXELS ==> #[trigger] spared(ds, 0, 0, i),
{
    assert forall|i: int| HEADER_H * 160 <= i < PIXELS implies #[trigger] spared(ds, 0, 0, i) by {
        assert forall|k: int| 0 <= k < ds.len() implies (#[trigger] ds[k]).one_line()
            && !ds[k].boxes(0, 0, i) by {
            assert(i / 160 >= 15);
        }
    }
}

/// The header line.
pub struct Header {
    text: String,
    mode: HeaderMode,
    align: HeaderAlign,
    hold: u128,
    color: u16,
    sync: bool,
    armed: bool,
    offset: i32,
    span: i32,
    pages: Vec<String>,
    page: usize,
    phase: Phase,
    last: Vec<Op>,
}

impl View for Header {
    type V = HeaderView;

    closed spec fn view(&self) -> HeaderView {
        HeaderView {
            text: self.text@,
            mode: self.mode,
            align: self.align,
            hold: self.hold as int,
            color: self.color,
            sync: self.sync,
            armed: self.armed,
            offset: self.offset as int,
            pages: texts(self.pages@),
            page: self.page as int,
            phase: self.phase,
            last: draws(self.last@),
        }
    }
}

impl Header {
    /// Whether the stored period is that of the text.
    pub closed spec fn span_known(self) -> bool {
        self.span == self@.span()
    }

    /// Whether the state hangs together.
    pub open spec fn wf(self) -> bool {
        self@.wf() && self.span_known()
    }

    /// A header that shows `text` from its first page, in white. `hold` is
    /// how long each page shows, in nanoseconds. It counts as showing its
    /// text at rest already, so that its first frame is no change unless it
    /// sets out to scroll.
    pub fn new(
        text: &str,
        mode: HeaderMode,
        align: HeaderAlign,
        hold: u128,
        sync: bool,
        now: u128,
    ) -> (h: Self)
        requires
            18 * text@.len() + 24 <= i32::MAX,
            now + hold <= u128::MAX,
        ensures
            h.wf(),
            h@ == (HeaderView {
                text: text@,
                mode,
                align,
                hold: hold as int,
                color: WHITE,
                sync,
                armed: false,
                offset: 0,
                pages: header_pages(text@),
                page: 0,
                phase: Phase::Hold { deadline: (now + hold) as u128 },
                last: h@.at_rest(),
            }),
    {
        proof {
            lemma_medium_width(text@);
            lemma_pages_fit(cut_at(text@, " - "@));
        }
        let span: i32 = text_width(Font::Medium, text) + SCROLL_GAP_PX;
        let c = chars_of(text);
        let pages = build_pages(&c);
        let mut h = Header {
            text: text.to_owned(),
            mode,
            align,
            hold,
            color: WHITE,
            sync,
            armed: false,
            offset: 0,
            span,
            pages,
            page: 0,
            phase: Phase::Hold { deadline: now + hold },
            last: Vec::new(),
        };
        let ghost was = h@;
        let last = if mode == HeaderMode::Slide || h.pages.len() <= 1 {
            h.resting_ops(&h.text)
        } else {
            assert(texts(h.pages@)[0] == h.pages@[0]@);
            h.resting_ops(&h.pages[0])
        };
        h.last = last;
        assert(h@ =~= HeaderView { last: was.at_rest(), ..was });
        h
    }

    /// Sets the text color.
    pub fn set_color(&mut self, color: u16)
        requires
            old(self).wf(),
        ensures
            final(self).wf(),
            final(self)@ == (HeaderView { color, ..old(self)@ }),
    {
        self.color = color;
    }

    /// Tells that the page rotation turns now. In sync mode this is the only
    /// moment at which the header may turn too; the next frame uses it up.
    pub fn trigger(&mut self)
        requires
            old(self).wf(),
        ensures
            final(self).wf(),
            final(self)@ == (HeaderView { armed: true, ..old(self)@ }),
    {
        self.armed = true;
    }

    fn may_advance(&self, busy: bool, now: u128) -> (go: bool)
        ensures
            go == self@.may_turn(busy, now as int),
    {
        let due = match self.phase {
            Phase::Hold { deadline } => now >= deadline,
            Phase::Wipe { .. } => false,
        };
        if self.sync {
            self.armed && due
        } else {
            !busy && due
        }
    }

    fn scrolls(&self) -> (r: bool)
        requires
            self.wf(),
        ensures
            r == self@.scrolling(),
    {
        text_width(Font::Medium, self.text.as_str()) > WIDTH as i32
    }

    /// Left edge that places a text by the alignment.
    fn align_x(&self, text: &str) -> (x: i32)
        requires
            18 * text@.len() + 24 <= i32::MAX,
        ensures
            x == self@.left_edge(text@),
            0 <= x <= 160,
            x > 0 ==> x + width_of(Font::Medium, text@) <= 160,
    {
        let slack: i32 = WIDTH as i32 - text_width(Font::Medium, text);
        match self.align {
            HeaderAlign::Left => 0,
            HeaderAlign::Center => if slack > 0 {
                slack / 2
            } else {
                0
            },
            HeaderAlign::Right => if slack > 0 {
                slack
            } else {
                0
            },
        }
    }

    fn line_op(&self, text: &String, x: i32, y: i32) -> (op: Op)
        ensures
            op@ == self@.line(text@, x as int, y as int),
    {
        Op::Text { font: Font::Medium, text: text.clone(), x, y, color: self.color }
    }

    fn resting_ops(&self, text: &String) -> (ops: Vec<Op>)
        requires
            18 * text@.len() + 24 <= i32::MAX,
        ensures
            draws(ops@) == self@.resting(text@),
            all_drawable(draws(ops@), 0, 0),
    {
        let mut ops: Vec<Op> = Vec::new();
        ops.push(self.line_op(text, self.align_x(text.as_str()), 0));
        assert(draws(ops@) =~= self@.resting(text@));
        proof {
            lemma_medium_width(text@);
        }
        assert(draws(ops@)[0].drawable(0, 0));
        ops
    }

    /// Draws the next frame into the cleared header band and moves on by one
    /// step. `busy` says that the page area is in transition and hogs the
    /// bus: pages then do not turn. Tells whether the band's content differs
    /// from what the frame before left there, so that its flush can have the
    /// bus to itself. Text without line feeds leaves everything below the
    /// band as it is.
    pub fn draw(&mut self, fb: &mut FrameBuffer, busy: bool, now: u128) -> (changed: bool)
        requires
            old(self).wf(),
            old(fb).wf(),
            now + old(self)@.hold <= u128::MAX,
        ensures
            final(self).wf(),
            final(fb).wf(),
            final(self)@ == old(self)@.frame(busy, now as int).next,
            changed == old(self)@.frame(busy, now as int).changed,
            final(fb)@.shown == old(fb)@.shown,
            final(fb)@.back == old(self)@.drawn(old(fb)@.back, busy, now as int),
            !old(self)@.text.contains('\n') ==> same_below(final(fb)@.back, old(fb)@.back),
    {
        let ghost was = self@;
        fb.clear_header();
        let shows = match self.mode {
            HeaderMode::Slide => self.draw_slide(fb),
            _ => {
                if self.pages.len() <= 1 {
                    self.draw_line(fb, &self.text)
                } else if self.mode == HeaderMode::Cut {
                    self.draw_cut(fb, busy, now)
                } else {
                    self.draw_wipe(fb, busy, now)
                }
            },
        };
        let changed = !same_ops(&shows, &self.last);
        self.last = shows;
        self.armed = false;
        assert(self@ =~= was.frame(busy, now as int).next);
        changed
    }

    fn draw_line(&self, fb: &mut FrameBuffer, text: &String) -> (shows: Vec<Op>)
        requires
            old(fb).wf(),
            18 * text@.len() + 24 <= i32::MAX,
        ensures
            draws(shows@) == self@.resting(text@),
            final(fb).wf(),
            final(fb)@.shown == old(fb)@.shown,
            final(fb)@.back == paint_all(
                old(fb)@.back,
                self@.resting(text@),
                whole_panel(),
                0,
                0,
            ),
            !text@.contains('\n') ==> same_below(final(fb)@.back, old(fb)@.back),
    {
        let ops = self.resting_ops(text);
        proof {
            if !text@.contains('\n') {
                lemma_lines_stay(draws(ops@));
            }
        }
        fb.draw_panel(&ops);
        ops
    }

    fn draw_slide(&mut self, fb: &mut FrameBuffer) -> (shows: Vec<Op>)
        requires
            old(self).wf(),
            old(fb).wf(),
        ensures
            final(self).wf(),
            final(fb).wf(),
            final(self)@ == old(self)@.slide_frame().next,
            draws(shows@) == old(self)@.slide_frame().shows,
            final(fb)@.shown == old(fb)@.shown,
            !old(self)@.slide_frame().clipped,
            final(fb)@.back == paint_all(
                old(fb)@.back,
                old(self)@.slide_frame().ops,
                whole_panel(),
                0,
                0,
            ),
            !old(self)@.text.contains('\n') ==> same_below(final(fb)@.back, old(fb)@.back),
    {
        let ghost was = self@;
        if self.scrolls() {
            let mut ops: Vec<Op> = Vec::new();
            ops.push(self.line_op(&self.text, -self.offset, 0));
            ops.push(self.line_op(&self.text, -self.offset + self.span, 0));
            assert(draws(ops@) =~= was.slide_frame().ops);
            proof {
                lemma_medium_width(self.text@);
                if !was.text.contains('\n') {
                    lemma_lines_stay(draws(ops@));
                }
            }
            assert(draws(ops@)[0].drawable(0, 0));
            assert(draws(ops@)[1].drawable(0, 0));
            fb.draw_panel(&ops);
            self.offset = (self.offset + 1) % self.span;
            ops
        } else {
            self.draw_line(fb, &self.text)
        }
    }

    fn draw_cut(&mut self, fb: &mut FrameBuffer, busy: bool, now: u128) -> (shows: Vec<Op>)
        requires
            old(self).wf(),
            old(fb).wf(),
            old(self)@.pages.len() > 1,
            now + old(self)@.hold <= u128::MAX,
            old(self)@.mode == HeaderMode::Cut,
        ensures
            final(self).wf(),
            final(fb).wf(),
            final(self)@ == old(self)@.cut_frame(busy, now as int).next,
            draws(shows@) == old(self)@.cut_frame(busy, now as int).shows,
            final(fb)@.shown == old(fb)@.shown,
            final(fb)@.back == paint_all(
                old(fb)@.back,
                old(self)@.cut_frame(busy, now as int).ops,
                whole_panel(),
                0,
                0,
            ),
            !old(self)@.text.contains('\n') ==> same_below(final(fb)@.back, old(fb)@.back),
    {
        let ghost was = self@;
        assert(self.page < self.pages.len());
        if self.may_advance(busy, now) {
            self.page = (self.page + 1) % self.pages.len();
            self.phase = Phase::Hold { deadline: now + self.hold };
        }
        proof {
            lemma_pages_fit(cut_at(was.text, " - "@));
            assert(self@ == was.cut_frame(busy, now as int).next);
            assert(texts(self.pages@)[self.page as int] == self.pages@[self.page as int]@);
            if !was.text.contains('\n') {
                lemma_pages_one_line(was.text);
            }
        }
        self.draw_line(fb, &self.pages[self.page])
    }

    fn draw_wipe(&mut self, fb: &mut FrameBuffer, busy: bool, now: u128) -> (shows: Vec<Op>)
        requires
            old(self).wf(),
            old(fb).wf(),
            old(self)@.pages.len() > 1,
            now + old(self)@.hold <= u128::MAX,
            old(self)@.mode.direction() != (0int, 0int),
        ensures
            final(self).wf(),
            final(fb).wf(),
            final(self)@ == old(self)@.wipe_frame(busy, now as int).next,
            draws(shows@) == old(self)@.wipe_frame(busy, now as int).shows,
            final(fb)@.shown == old(fb)@.shown,
            final(fb)@.back == paint_all(
                old(fb)@.back,
                old(self)@.wipe_frame(busy, now as int).ops,
                if old(self)@.wipe_frame(busy, now as int).clipped {
                    header_rows()
                } else {
                    whole_panel()
                },
                0,
                0,
            ),
            !old(self)@.text.contains('\n') ==> same_below(final(fb)@.back, old(fb)@.back),
    {
        let ghost was = self@;
        proof {
            lemma_pages_fit(cut_at(was.text, " - "@));
            assert(texts(self.pages@)[self.page as int] == self.pages@[self.page as int]@);
            if !was.text.contains('\n') {
                lemma_pages_one_line(was.text);
            }
        }
        match self.phase {
            Phase::Hold { .. } => {
                let shows = self.draw_line(fb, &self.pages[self.page]);
                if self.may_advance(busy, now) {
                    self.phase = Phase::Wipe { progress: 0 };
                }
                shows
            },
            Phase::Wipe { progress } => {
                assert(self.page < self.pages.len());
                let next: usize = (self.page + 1) % self.pages.len();
                let (dx, dy) = self.mode.wipe_dir();
                let limit: i32 = if dx != 0 {
                    WIDTH as i32
                } else {
                    HEADER_H
                };
                let step: i32 = if dx != 0 {
                    WIPE_H_STEP
                } else {
                    WIPE_V_STEP
                };
                assert(texts(self.pages@)[next as int] == self.pages@[next as int]@);
                let old_x: i32 = self.align_x(self.pages[self.page].as_str());
                let new_x: i32 = self.align_x(self.pages[next].as_str());
                let behind: i32 = progress - limit;
                proof {
                    small_product(dx as int, progress as int);
                    small_product(dy as int, progress as int);
                    small_product(dx as int, behind as int);
                    small_product(dy as int, behind as int);
                }
                let mut ops: Vec<Op> = Vec::new();
                ops.push(
                    self.line_op(&self.pages[self.page], old_x + dx * progress, dy * progress),
                );
                ops.push(self.line_op(&self.pages[next], new_x + dx * behind, dy * behind));
                assert(draws(ops@) =~= was.wipe_frame(busy, now as int).ops);
                proof {
                    let a = draws(ops@)[0];
                    let b = draws(ops@)[1];
                    lemma_text_fits(Font::Medium, a->text.len(), a->Text_x, a->Text_y);
                    lemma_text_fits(Font::Medium, b->text.len(), b->Text_x, b->Text_y);
                }
                let ghost before = fb@.back;
                fb.draw_header_band(&ops);
                proof {
                    lemma_clipped(before, draws(ops@), header_rows(), 0, 0);
                    assert forall|i: int| HEADER_H * 160 <= i < PIXELS implies #[trigger] fb@.back[i]
                        == before[i] by {
                        assert(i / 160 >= HEADER_H);
                    }
                }
                let shows = if progress == 0 {
                    self.resting_ops(&self.pages[self.page])
                } else {
                    ops
                };
                let further: i32 = progress + step;
                if further >= limit {
                    self.page = next;
                    self.phase = Phase::Hold { deadline: now + self.hold };
                } else {
                    self.phase = Phase::Wipe { progress: further };
                }
                shows
            },
        }
    }
}

proof fn small_product(d: int, n: int)
    requires
        -1 <= d <= 1,
        -160 <= n <= 160,
    ensures
        -160 <= d * n <= 160,
{
    assert(-160 <= d * n <= 160) by (nonlinear_arith)
        requires
            -1 <= d <= 1,
            -160 <= n <= 160,
    ;
}

} // verus!
