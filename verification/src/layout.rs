//! The building blocks of the pages: text, gauges, graphs. Each adds drawing
//! operations, in page coordinates, to a list.

use std::collections::VecDeque;

use vstd::prelude::*;

use crate::color::{heat_color, load_color, temp_color, usage_color, GRAY, WHITE};
use crate::font::{
    character_size, lemma_text_fits, render_text, text_fits, text_mask, text_width, width_of,
    Font,
};
use crate::framebuffer::{all_drawable, draws, Draw, Op};
use crate::history::NET_GRAPH_WIDTH;
use crate::numbers::{decimal, decimal_text};
use crate::panel::{PAGE_HEIGHT, PAGE_TOP, PIXELS, WIDTH};
use crate::stats::push_if;
use crate::text::chars_of;

verus! {

// ---- single operations ----

impl Draw {
    /// Whether the operation can be drawn at any offset that a page takes,
    /// at rest or in a wipe: text must keep its coordinates in 32 bits.
    pub open spec fn near(self) -> bool {
        match self {
            Draw::Fill { .. } => true,
            Draw::Text { font, text, x, y, .. } => {
                &&& i32::MIN + WIDTH <= x
                &&& i32::MIN + WIDTH <= y
                &&& text.len() * font.width() <= i32::MAX
                &&& x + WIDTH + text.len() * font.width() <= i32::MAX
                &&& y + PAGE_TOP + WIDTH + (text.len() + 1) * font.height() <= i32::MAX
            },
        }
    }
}

/// Whether all operations can be drawn at any offset that a page takes.
pub open spec fn all_near(ds: Seq<Draw>) -> bool {
    forall|i: int| 0 <= i < ds.len() ==> (#[trigger] ds[i]).near()
}

/// The offsets that a page takes.
pub proof fn lemma_near_drawable(ds: Seq<Draw>, dx: int, dy: int)
    requires
        all_near(ds),
        -WIDTH <= dx <= WIDTH,
        -WIDTH <= dy <= PAGE_TOP + WIDTH,
    ensures
        all_drawable(ds, dx, dy),
{
    assert forall|i: int| 0 <= i < ds.len() implies (#[trigger] ds[i]).drawable(dx, dy) by {
        assert(ds[i].near());
    }
}

/// Short text on or about a page can be drawn at any offset that it takes.
pub broadcast proof fn lemma_short_near(font: Font, text: Seq<char>, x: int, y: int, color: u16)
    requires
        text.len() <= 1_000,
        -100_000 <= x <= 100_000,
        -100_000 <= y <= 100_000,
    ensures
        #[trigger] (Draw::Text { font, text, x, y, color }).near(),
{
    lemma_text_fits(font, text.len(), x + 200, y + 200);
}

/// Short text that ends on or about a page can be drawn at any offset.
pub broadcast proof fn lemma_short_right(
    font: Font,
    text: Seq<char>,
    right: int,
    y: int,
    color: u16,
)
    requires
        text.len() <= 1_000,
        0 <= right <= 10_000,
        -100_000 <= y <= 100_000,
    ensures
        #[trigger] right_aligned(font, text, right, y, color).near(),
{
    let n = text.len();
    let w = font.width();
    assert(n * w <= 10_000) by (nonlinear_arith)
        requires
            n <= 1_000,
            w <= 10,
    ;
    lemma_short_near(font, text, right - width_of(font, text), y, color);
}

/// Adds an operation.
pub fn add_op(ops: &mut Vec<Op>, op: Op)
    requires
        all_near(draws(old(ops)@)),
        op@.near(),
    ensures
        all_near(draws(final(ops)@)),
        draws(final(ops)@) == draws(old(ops)@).push(op@),
{
    let ghost was = draws(ops@);
    ops.push(op);
    assert(draws(ops@) =~= was.push(op@));
    assert forall|i: int| 0 <= i < draws(ops@).len() implies (#[trigger] draws(ops@)[i]).near() by {
        if i < was.len() {
            assert(was[i].near());
        }
    }
}

/// Adds a filled rectangle.
pub fn add_fill(ops: &mut Vec<Op>, x: i32, y: i32, w: u32, h: u32, color: u16)
    requires
        all_near(draws(old(ops)@)),
    ensures
        all_near(draws(final(ops)@)),
        draws(final(ops)@) == draws(old(ops)@).push(
            Draw::Fill { x: x as int, y: y as int, w: w as nat, h: h as nat, color },
        ),
{
    add_op(ops, Op::Fill { x, y, w, h, color });
}

/// Adds text with its left edge at `x`.
pub fn add_text(ops: &mut Vec<Op>, font: Font, text: &str, x: i32, y: i32, color: u16)
    requires
        all_near(draws(old(ops)@)),
        (Draw::Text { font, text: text@, x: x as int, y: y as int, color }).near(),
    ensures
        all_near(draws(final(ops)@)),
        draws(final(ops)@) == draws(old(ops)@).push(
            Draw::Text { font, text: text@, x: x as int, y: y as int, color },
        ),
{
    add_op(ops, Op::Text { font, text: text.to_owned(), x, y, color });
}

/// Text that ends at `right`.
pub open spec fn right_aligned(
    font: Font,
    text: Seq<char>,
    right: int,
    y: int,
    color: u16,
) -> Draw {
    Draw::Text { font, text, x: right - width_of(font, text), y, color }
}

/// Adds text that ends at `right`.
pub fn add_right(ops: &mut Vec<Op>, font: Font, text: &str, right: i32, y: i32, color: u16)
    requires
        all_near(draws(old(ops)@)),
        right_aligned(font, text@, right as int, y as int, color).near(),
    ensures
        all_near(draws(final(ops)@)),
        draws(final(ops)@) == draws(old(ops)@).push(
            right_aligned(font, text@, right as int, y as int, color),
        ),
{
    let x: i32 = right - text_width(font, text);
    add_text(ops, font, text, x, y, color);
}

// ---- the value line and the gauge ----

/// The stat line: label at column 30, value up to column 115, unit behind
/// it.
pub open spec fn value_line(label: Seq<char>, value: u8, unit: Seq<char>) -> Seq<Draw> {
    seq![
        Draw::Text { font: Font::LargeLatin, text: label, x: 30, y: 10, color: WHITE },
        right_aligned(Font::LargeLatin, decimal(value as nat), 115, 10, WHITE),
        Draw::Text { font: Font::LargeLatin, text: unit, x: 115, y: 10, color: WHITE },
    ]
}

/// Segments of the gauge that are lit, in proportion to the percentage: one
/// for each full ten percent.
pub open spec fn gauge_lit(percent: int) -> int {
    (if percent <= 100 {
        percent
    } else {
        100
    }) / 10
}

/// The gauge: ten segments along the bottom of the page.
pub open spec fn gauge(percent: u8, color: u16) -> Seq<Draw> {
    Seq::new(
        10,
        |s: int|
            Draw::Fill {
                x: 30 + s * 10,
                y: 35,
                w: 6,
                h: 10,
                color: if s < gauge_lit(percent as int) {
                    color
                } else {
                    GRAY
                },
            },
    )
}

/// The length of a number's text.
pub proof fn lemma_decimal_len(n: nat, digits: nat, bound: nat)
    requires
        n < bound,
        bound == power_of_ten(digits),
        digits >= 1,
    ensures
        1 <= decimal(n).len() <= digits,
    decreases digits,
{
    if n >= 10 {
        assert(digits >= 2) by {
            if digits == 1 {
                assert(power_of_ten(1) == 10 * power_of_ten(0));
            }
        }
        let b = power_of_ten((digits - 1) as nat);
        assert(bound == 10 * b);
        lemma_decimal_len(n / 10, (digits - 1) as nat, b);
    }
}

/// Ten to the power of `k`.
pub open spec fn power_of_ten(k: nat) -> nat
    decreases k,
{
    if k == 0 {
        1
    } else {
        10 * power_of_ten((k - 1) as nat)
    }
}

/// The text of any 64-bit number has at most twenty digits.
pub proof fn lemma_decimal_short(n: nat)
    requires
        n <= u64::MAX,
    ensures
        1 <= decimal(n).len() <= 20,
{
    reveal_with_fuel(power_of_ten, 21);
    lemma_decimal_len(n, 20, power_of_ten(20));
}

/// Adds the stat line.
pub fn draw_value_line(ops: &mut Vec<Op>, label: &str, value: u8, unit: &str)
    requires
        all_near(draws(old(ops)@)),
        value_line(label@, value, unit@)[0].near(),
        value_line(label@, value, unit@)[2].near(),
    ensures
        all_near(draws(final(ops)@)),
        draws(final(ops)@) == draws(old(ops)@) + value_line(label@, value, unit@),
{
    let ghost was = draws(ops@);
    let number = decimal_text(value as u64);
    proof {
        lemma_decimal_short(value as nat);
        lemma_short_right(Font::LargeLatin, number@, 115, 10, WHITE);
    }
    add_text(ops, Font::LargeLatin, label, 30, 10, WHITE);
    add_right(ops, Font::LargeLatin, number.as_str(), 115, 10, WHITE);
    add_text(ops, Font::LargeLatin, unit, 115, 10, WHITE);
    assert(draws(ops@) =~= was + value_line(label@, value, unit@));
}

/// Adds the gauge.
pub fn draw_gauge(ops: &mut Vec<Op>, percent: u8, color: u16)
    requires
        all_near(draws(old(ops)@)),
    ensures
        all_near(draws(final(ops)@)),
        draws(final(ops)@) == draws(old(ops)@) + gauge(percent, color),
{
    let ghost was = draws(ops@);
    let p: i32 = if percent <= 100 {
        percent as i32
    } else {
        100
    };
    let filled: i32 = p / 10;
    let mut s: i32 = 0;
    assert(gauge(percent, color).take(0) =~= Seq::<Draw>::empty());
    while s < 10
        invariant
            0 <= s <= 10,
            filled == gauge_lit(percent as int),
            all_near(draws(ops@)),
            draws(ops@) == was + gauge(percent, color).take(s as int),
        decreases 10 - s,
    {
        let c: u16 = if s < filled {
            color
        } else {
            GRAY
        };
        add_fill(ops, 30 + s * 10, 35, 6, 10, c);
        assert(gauge(percent, color).take(s + 1) =~= gauge(percent, color).take(s as int).push(
            gauge(percent, color)[s as int],
        ));
        assert(draws(ops@) =~= was + gauge(percent, color).take(s + 1));
        s = s + 1;
    }
    assert(gauge(percent, color).take(10) =~= gauge(percent, color));
}

// ---- sparklines ----

/// How the samples of a sparkline are colored.
#[derive(Clone, Copy, PartialEq, Eq, Structural, Debug)]
pub enum Palette {
    /// On the load gradient.
    Load,
    /// By temperature status.
    Heat,
}

impl Palette {
    /// The color of a sample.
    pub open spec fn color(self, value: u8) -> u16 {
        match self {
            Palette::Load => load_color(value as int),
            Palette::Heat => heat_color(value as int),
        }
    }

    fn color_of(self, value: u8) -> (c: u16)
        ensures
            c == self.color(value),
    {
        match self {
            Palette::Load => usage_color(value),
            Palette::Heat => temp_color(value),
        }
    }
}

/// Where a graph stands: its left edge, its top, and its size.
#[derive(Clone, Copy)]
pub struct Graph {
    pub x: i32,
    pub y: i32,
    pub width: usize,
    pub height: i32,
}

impl Graph {
    /// Whether the graph's columns can be reckoned in 32 bits.
    pub open spec fn wf(self) -> bool {
        &&& self.width <= i32::MAX
        &&& self.x + self.width <= i32::MAX
        &&& 0 <= self.height
        &&& self.y + self.height <= i32::MAX
    }
}

/// Height of the column of a percentage: in proportion, rounded up, so that
/// anything above zero shows.
pub open spec fn bar_height(value: int, height: int) -> int {
    let v = if value <= 100 {
        value
    } else {
        100
    };
    (v * height + 99) / 100
}

/// The column of the sample that is the `i`th newest.
pub open spec fn spark_column(s: Seq<u8>, g: Graph, p: Palette, i: int) -> Draw {
    let value = s[s.len() - 1 - i];
    let bar = bar_height(value as int, g.height as int);
    Draw::Fill {
        x: g.x + g.width - 1 - i,
        y: g.y + g.height - bar,
        w: 1,
        h: bar as nat,
        color: p.color(value),
    }
}

/// The columns of the `n` newest samples, newest at the right edge; samples
/// of height zero have none.
pub open spec fn spark(s: Seq<u8>, g: Graph, p: Palette, n: nat) -> Seq<Draw>
    decreases n,
{
    if n == 0 {
        Seq::empty()
    } else {
        push_if(
            spark(s, g, p, (n - 1) as nat),
            bar_height(s[s.len() - n] as int, g.height as int) > 0,
            spark_column(s, g, p, n - 1),
        )
    }
}

/// How many samples a graph shows.
pub open spec fn shown_samples(len: nat, width: nat) -> nat {
    if len <= width {
        len
    } else {
        width
    }
}

/// A sparkline of percentages.
pub open spec fn sparkline(s: Seq<u8>, g: Graph, p: Palette) -> Seq<Draw> {
    spark(s, g, p, shown_samples(s.len(), g.width as nat))
}

/// Adds a sparkline of percentages.
pub fn draw_sparkline(ops: &mut Vec<Op>, samples: &VecDeque<u8>, g: Graph, p: Palette)
    requires
        all_near(draws(old(ops)@)),
        g.wf(),
        g.height * 100 + 99 <= i32::MAX,
    ensures
        all_near(draws(final(ops)@)),
        draws(final(ops)@) == draws(old(ops)@) + sparkline(samples@, g, p),
{
    let ghost was = draws(ops@);
    let n: usize = if samples.len() <= g.width {
        samples.len()
    } else {
        g.width
    };
    let mut i: usize = 0;
    assert(was + spark(samples@, g, p, 0) =~= was);
    while i < n
        invariant
            g.wf(),
            g.height * 100 + 99 <= i32::MAX,
            i <= n,
            n <= samples@.len(),
            n <= g.width,
            all_near(draws(ops@)),
            draws(ops@) == was + spark(samples@, g, p, i as nat),
        decreases n - i,
    {
        let value: u8 = samples[samples.len() - 1 - i];
        let v: i32 = if value <= 100 {
            value as i32
        } else {
            100
        };
        proof {
            let h = g.height;
            assert(0 <= v * h <= h * 100) by (nonlinear_arith)
                requires
                    0 <= v <= 100,
                    0 <= h,
            ;
        }
        let bar: i32 = (v * g.height + 99) / 100;
        let ghost before = draws(ops@);
        if bar > 0 {
            add_fill(
                ops,
                g.x + g.width as i32 - 1 - i as i32,
                g.y + g.height - bar,
                1,
                bar as u32,
                p.color_of(value),
            );
        }
        assert(draws(ops@) =~= was + spark(samples@, g, p, (i + 1) as nat));
        i = i + 1;
    }
}

/// The largest of the `n` newest samples and the floor.
pub open spec fn peak_of(s: Seq<u32>, n: nat, floor: int) -> int
    decreases n,
{
    if n == 0 {
        floor
    } else {
        let rest = peak_of(s, (n - 1) as nat, floor);
        if s[s.len() - n] > rest {
            s[s.len() - n] as int
        } else {
            rest
        }
    }
}

/// Height of the column of a count: in proportion to the peak, rounded up.
pub open spec fn scaled_height(value: int, height: int, peak: int) -> int {
    (value * height + peak - 1) / peak
}

/// The column of the sample that is the `i`th newest: it grows up from, or
/// down below, the base row.
pub open spec fn count_column(
    s: Seq<u32>,
    right: int,
    base: int,
    up: bool,
    height: int,
    peak: int,
    color: u16,
    i: int,
) -> Draw {
    let bar = scaled_height(s[s.len() - 1 - i] as int, height, peak);
    Draw::Fill {
        x: right - 1 - i,
        y: if up {
            base - bar
        } else {
            base + 1
        },
        w: 1,
        h: bar as nat,
        color,
    }
}

/// The columns of the `n` newest samples of a graph of counts that ends at
/// column `right`.
pub open spec fn counts(
    s: Seq<u32>,
    right: int,
    base: int,
    up: bool,
    height: int,
    peak: int,
    color: u16,
    n: nat,
) -> Seq<Draw>
    decreases n,
{
    if n == 0 {
        Seq::empty()
    } else {
        push_if(
            counts(s, right, base, up, height, peak, color, (n - 1) as nat),
            scaled_height(s[s.len() - n] as int, height, peak) > 0,
            count_column(s, right, base, up, height, peak, color, n - 1),
        )
    }
}

/// The largest of the newest samples that a graph shows, at least the floor,
/// so that idle jitter does not fill the graph.
pub fn window_peak(samples: &VecDeque<u32>, width: usize, floor: u32) -> (peak: u32)
    ensures
        peak == peak_of(samples@, shown_samples(samples@.len(), width as nat), floor as int),
        peak >= floor,
        forall|i: int|
            0 <= i < shown_samples(samples@.len(), width as nat) ==> #[trigger] samples@[samples@.len()
                - 1 - i] <= peak,
{
    let n: usize = if samples.len() <= width {
        samples.len()
    } else {
        width
    };
    let mut peak: u32 = floor;
    let mut i: usize = 0;
    while i < n
        invariant
            i <= n,
            n <= samples@.len(),
            peak >= floor,
            peak == peak_of(samples@, i as nat, floor as int),
            forall|k: int| 0 <= k < i ==> #[trigger] samples@[samples@.len() - 1 - k] <= peak,
        decreases n - i,
    {
        let v: u32 = samples[samples.len() - 1 - i];
        if v > peak {
            peak = v;
        }
        i = i + 1;
    }
    peak
}

proof fn lemma_scaled_height(value: int, height: int, peak: int)
    requires
        0 <= value <= peak,
        0 <= height <= i32::MAX,
        1 <= peak <= u32::MAX,
    ensures
        0 <= value * height <= 0xffff_ffff * 0x7fff_ffff,
        0 <= scaled_height(value, height, peak) <= height,
{
    assert(0 <= value * height <= peak * height) by (nonlinear_arith)
        requires
            0 <= value <= peak,
            0 <= height,
    ;
    assert(peak * height <= 0xffff_ffff * 0x7fff_ffff) by (nonlinear_arith)
        requires
            0 <= peak <= 0xffff_ffff,
            0 <= height <= 0x7fff_ffff,
    ;
    let a = value * height + peak - 1;
    assert(0 <= a / peak <= height) by (nonlinear_arith)
        requires
            0 <= a < peak * height + peak,
            peak >= 1,
    ;
}

fn draw_counts(
    ops: &mut Vec<Op>,
    samples: &VecDeque<u32>,
    right: i32,
    width: usize,
    base: i32,
    up: bool,
    height: i32,
    floor: u32,
    color: u16,
)
    requires
        all_near(draws(old(ops)@)),
        width <= i32::MAX,
        right - width >= i32::MIN,
        up ==> base - height >= i32::MIN,
        !up ==> base < i32::MAX,
        0 <= height,
        floor > 0,
    ensures
        all_near(draws(final(ops)@)),
        draws(final(ops)@) == draws(old(ops)@) + counts(
            samples@,
            right as int,
            base as int,
            up,
            height as int,
            peak_of(samples@, shown_samples(samples@.len(), width as nat), floor as int),
            color,
            shown_samples(samples@.len(), width as nat),
        ),
{
    let ghost was = draws(ops@);
    let peak: u32 = window_peak(samples, width, floor);
    let n: usize = if samples.len() <= width {
        samples.len()
    } else {
        width
    };
    let ghost s = samples@;
    let mut i: usize = 0;
    assert(was + counts(s, right as int, base as int, up, height as int, peak as int, color, 0)
        =~= was);
    while i < n
        invariant
            s == samples@,
            width <= i32::MAX,
            right - width >= i32::MIN,
            up ==> base - height >= i32::MIN,
            !up ==> base < i32::MAX,
            0 <= height,
            peak >= 1,
            i <= n,
            n <= samples@.len(),
            n <= width,
            n == shown_samples(s.len(), width as nat),
            forall|k: int| 0 <= k < n ==> #[trigger] s[s.len() - 1 - k] <= peak,
            all_near(draws(ops@)),
            draws(ops@) == was + counts(
                s,
                right as int,
                base as int,
                up,
                height as int,
                peak as int,
                color,
                i as nat,
            ),
        decreases n - i,
    {
        let value: u32 = samples[samples.len() - 1 - i];
        proof {
            assert(s[s.len() - 1 - i as int] <= peak);
            lemma_scaled_height(value as int, height as int, peak as int);
        }
        let bar: i32 = ((value as u64 * height as u64 + peak as u64 - 1) / peak as u64) as i32;
        assert(bar == scaled_height(value as int, height as int, peak as int));
        if bar > 0 {
            let y: i32 = if up {
                base - bar
            } else {
                base + 1
            };
            add_fill(ops, right - 1 - i as i32, y, 1, bar as u32, color);
        }
        assert(draws(ops@) =~= was + counts(
            s,
            right as int,
            base as int,
            up,
            height as int,
            peak as int,
            color,
            (i + 1) as nat,
        ));
        i = i + 1;
    }
}

/// A sparkline of counts, scaled to the peak of what it shows.
pub open spec fn sparkline_scaled(s: Seq<u32>, g: Graph, floor: int, color: u16) -> Seq<Draw> {
    let n = shown_samples(s.len(), g.width as nat);
    counts(
        s,
        g.x + g.width,
        g.y + g.height,
        true,
        g.height as int,
        peak_of(s, n, floor),
        color,
        n,
    )
}

/// Adds a sparkline of counts, scaled to the peak of what it shows; `floor`
/// is the least peak.
pub fn draw_sparkline_scaled(
    ops: &mut Vec<Op>,
    samples: &VecDeque<u32>,
    g: Graph,
    floor: u32,
    color: u16,
)
    requires
        all_near(draws(old(ops)@)),
        g.wf(),
        floor > 0,
    ensures
        all_near(draws(final(ops)@)),
        draws(final(ops)@) == draws(old(ops)@) + sparkline_scaled(
            samples@,
            g,
            floor as int,
            color,
        ),
{
    draw_counts(
        ops,
        samples,
        g.x + g.width as i32,
        g.width,
        g.y + g.height,
        true,
        g.height,
        floor,
        color,
    );
}

/// Left edge of the network graph.
pub const NET_GRAPH_X: i32 = 8;

/// The least peak of either half of the network graph, in bytes per second.
pub const NET_FLOOR: u32 = 10_000;

/// One half of the network graph: columns grow away from the middle row,
/// scaled to the peak of that half.
pub open spec fn net_half(s: Seq<u32>, mid: int, up: bool, height: int, color: u16) -> Seq<Draw> {
    let n = shown_samples(s.len(), NET_GRAPH_WIDTH as nat);
    counts(
        s,
        NET_GRAPH_X + NET_GRAPH_WIDTH,
        mid,
        up,
        height,
        peak_of(s, n, NET_FLOOR as int),
        color,
        n,
    )
}

/// Adds one half of the network graph.
pub fn draw_net_half(
    ops: &mut Vec<Op>,
    samples: &VecDeque<u32>,
    mid: i32,
    up: bool,
    height: i32,
    color: u16,
)
    requires
        all_near(draws(old(ops)@)),
        up ==> mid - height >= i32::MIN,
        !up ==> mid < i32::MAX,
        0 <= height,
    ensures
        all_near(draws(final(ops)@)),
        draws(final(ops)@) == draws(old(ops)@) + net_half(
            samples@,
            mid as int,
            up,
            height as int,
            color,
        ),
{
    draw_counts(
        ops,
        samples,
        NET_GRAPH_X + NET_GRAPH_WIDTH as i32,
        NET_GRAPH_WIDTH,
        mid,
        up,
        height,
        NET_FLOOR,
        color,
    );
}

// ---- stacked and scaled text ----

/// Characters one below the other.
pub open spec fn stack(
    text: Seq<char>,
    font: Font,
    x: int,
    top: int,
    pitch: int,
    color: u16,
) -> Seq<Draw> {
    Seq::new(
        text.len(),
        |i: int| Draw::Text { font, text: seq![text[i]], x, y: top + i * pitch, color },
    )
}

/// Adds characters one below the other.
pub fn draw_stack(
    ops: &mut Vec<Op>,
    text: &str,
    font: Font,
    x: i32,
    top: i32,
    pitch: i32,
    color: u16,
)
    requires
        all_near(draws(old(ops)@)),
        text@.len() <= i32::MAX,
        all_near(stack(text@, font, x as int, top as int, pitch as int, color)),
    ensures
        all_near(draws(final(ops)@)),
        draws(final(ops)@) == draws(old(ops)@) + stack(
            text@,
            font,
            x as int,
            top as int,
            pitch as int,
            color,
        ),
{
    let ghost was = draws(ops@);
    let ghost all = stack(text@, font, x as int, top as int, pitch as int, color);
    let c = chars_of(text);
    let mut i: usize = 0;
    assert(was + all.take(0) =~= was);
    while i < c.len()
        invariant
            c@ == text@,
            text@.len() <= i32::MAX,
            all_near(all),
            i <= c@.len(),
            all == stack(text@, font, x as int, top as int, pitch as int, color),
            all_near(draws(ops@)),
            draws(ops@) == was + all.take(i as int),
        decreases c@.len() - i,
    {
        let mut one = String::new();
        one.push(c[i]);
        assert(one@ =~= seq![text@[i as int]]);
        proof {
            assert(-0x4000_0000_0000_0000 <= i * pitch <= 0x4000_0000_0000_0000)
                by (nonlinear_arith)
                requires
                    0 <= i <= 0x7fff_ffff,
                    -0x8000_0000 <= pitch <= 0x7fff_ffff,
            ;
            assert(all[i as int].near());
        }
        let y: i64 = top as i64 + i as i64 * pitch as i64;
        add_text(ops, font, one.as_str(), x, y as i32, color);
        assert(all.take(i + 1) =~= all.take(i as int).push(all[i as int]));
        assert(draws(ops@) =~= was + all.take(i + 1));
        i = i + 1;
    }
    assert(all.take(i as int) =~= all);
}

/// A quotient rounded toward zero.
pub open spec fn toward_zero(a: int, b: int) -> int {
    if a >= 0 {
        a / b
    } else {
        -(-a / b)
    }
}

/// Rows between the tops of the letters of a vertical label, so that they
/// spread over the page, or overlap where they do not fit it.
pub open spec fn label_pitch(letters: int, letter_h: int) -> int {
    letter_h + toward_zero(
        PAGE_HEIGHT - letters * letter_h,
        if letters >= 2 {
            letters - 1
        } else {
            1
        },
    )
}

/// A vertical label down the left edge of the page.
pub open spec fn vertical_label(text: Seq<char>, font: Font) -> Seq<Draw> {
    stack(text, font, 0, 0, label_pitch(text.len() as int, font.height() as int), WHITE)
}

/// Adds a vertical label.
pub fn draw_vertical_label(ops: &mut Vec<Op>, text: &str, font: Font)
    requires
        all_near(draws(old(ops)@)),
        text@.len() * font.height() <= i32::MAX,
        all_near(vertical_label(text@, font)),
    ensures
        all_near(draws(final(ops)@)),
        draws(final(ops)@) == draws(old(ops)@) + vertical_label(text@, font),
{
    let letters: usize = text.unicode_len();
    let letter_h: i32 = character_size(font).1 as i32;
    proof {
        let n = text@.len();
        let h = font.height();
        assert(n <= n * h) by (nonlinear_arith)
            requires
                h >= 1,
        ;
        assert(letters as i32 * letter_h == n * h);
    }
    let d: i32 = if letters >= 2 {
        letters as i32 - 1
    } else {
        1
    };
    let slack: i32 = PAGE_HEIGHT as i32 - letters as i32 * letter_h;
    proof {
        let a = if slack >= 0 {
            slack as int
        } else {
            -slack as int
        };
        assert(0 <= a / d as int <= a) by (nonlinear_arith)
            requires
                a >= 0,
                d >= 1,
        ;
    }
    let gap: i32 = if slack >= 0 {
        slack / d
    } else {
        -(-slack / d)
    };
    draw_stack(ops, text, font, 0, 0, letter_h + gap, WHITE);
}

/// Size and place of a scaled text: its unscaled size, its top left corner,
/// the factor, the color.
#[derive(Clone, Copy)]
pub struct Scaling {
    pub w: usize,
    pub h: usize,
    pub x: i32,
    pub y: i32,
    pub scale: i32,
    pub color: u16,
}

impl Scaling {
    /// Whether the squares can be reckoned in 32 bits, and the unscaled text
    /// is no higher than a frame.
    pub open spec fn wf(self) -> bool {
        &&& self.w <= i32::MAX
        &&& self.h <= 80
        &&& 1 <= self.scale
        &&& (self.w - 1) * self.scale <= i32::MAX
        &&& (self.h - 1) * self.scale <= i32::MAX
        &&& self.x + (self.w - 1) * self.scale <= i32::MAX
        &&& self.y + (self.h - 1) * self.scale <= i32::MAX
    }
}

/// What a list of masks holds.
pub open spec fn mask_views(masks: Seq<Vec<u8>>) -> Seq<Seq<u8>> {
    Seq::new(masks.len(), |k: int| masks[k]@)
}

/// Whether a pixel is lit in a row of masks, each a panel wide, side by side.
pub open spec fn lit(masks: Seq<Seq<u8>>, row: int, col: int) -> bool {
    masks[col / 160][row * 160 + col % 160] != 0
}

/// The blocks of the first `n` pixels of a row: a square for each pixel that
/// is lit.
pub open spec fn scaled_row(masks: Seq<Seq<u8>>, g: Scaling, row: int, n: nat) -> Seq<Draw>
    decreases n,
{
    if n == 0 {
        Seq::empty()
    } else {
        push_if(
            scaled_row(masks, g, row, (n - 1) as nat),
            lit(masks, row, n - 1),
            Draw::Fill {
                x: g.x + (n - 1) * g.scale,
                y: g.y + row * g.scale,
                w: g.scale as nat,
                h: g.scale as nat,
                color: g.color,
            },
        )
    }
}

/// The blocks of the first `n` rows.
pub open spec fn scaled_rows(masks: Seq<Seq<u8>>, g: Scaling, n: nat) -> Seq<Draw>
    decreases n,
{
    if n == 0 {
        Seq::empty()
    } else {
        scaled_rows(masks, g, (n - 1) as nat) + scaled_row(masks, g, n - 1, g.w as nat)
    }
}

/// Adds a square for each pixel that is lit in a row of masks, each a panel
/// wide, side by side.
pub fn draw_scaled_masks(ops: &mut Vec<Op>, masks: &Vec<Vec<u8>>, g: Scaling)
    requires
        all_near(draws(old(ops)@)),
        g.w <= masks@.len() * 160,
        forall|k: int| 0 <= k < masks@.len() ==> (#[trigger] masks@[k])@.len() == PIXELS,
        g.wf(),
    ensures
        all_near(draws(final(ops)@)),
        draws(final(ops)@) == draws(old(ops)@) + scaled_rows(mask_views(masks@), g, g.h as nat),
{
    let ghost was = draws(ops@);
    let ghost ms = mask_views(masks@);
    let mut row: usize = 0;
    assert(was + scaled_rows(ms, g, 0) =~= was);
    while row < g.h
        invariant
            g.wf(),
            ms == mask_views(masks@),
            g.w <= masks@.len() * 160,
            forall|k: int| 0 <= k < masks@.len() ==> (#[trigger] masks@[k])@.len() == PIXELS,
            row <= g.h,
            all_near(draws(ops@)),
            draws(ops@) == was + scaled_rows(ms, g, row as nat),
        decreases g.h - row,
    {
        let ghost above = draws(ops@);
        let mut col: usize = 0;
        assert(above + scaled_row(ms, g, row as int, 0) =~= above);
        while col < g.w
            invariant
                g.wf(),
                ms == mask_views(masks@),
                g.w <= masks@.len() * 160,
                forall|k: int| 0 <= k < masks@.len() ==> (#[trigger] masks@[k])@.len() == PIXELS,
                row < g.h,
                col <= g.w,
                all_near(draws(ops@)),
                draws(ops@) == above + scaled_row(ms, g, row as int, col as nat),
            decreases g.w - col,
        {
            proof {
                let s = g.scale as int;
                let (a, b) = (g.w - 1, g.h - 1);
                assert(0 <= col * s <= a * s && 0 <= row * s <= b * s) by (nonlinear_arith)
                    requires
                        0 <= col <= a,
                        0 <= row <= b,
                        1 <= s,
                ;
                assert(ms[col as int / 160] == masks@[col as int / 160]@);
            }
            if masks[col / 160][row * 160 + col % 160] != 0 {
                add_fill(
                    ops,
                    g.x + col as i32 * g.scale,
                    g.y + row as i32 * g.scale,
                    g.scale as u32,
                    g.scale as u32,
                    g.color,
                );
            }
            assert(draws(ops@) =~= above + scaled_row(ms, g, row as int, (col + 1) as nat));
            col = col + 1;
        }
        assert(draws(ops@) =~= was + scaled_rows(ms, g, (row + 1) as nat));
        row = row + 1;
    }
}

/// The glyphs of a line of text, however wide: masks side by side, each of
/// them a panel's width further along the text.
pub open spec fn line_masks(font: Font, text: Seq<char>, n: nat) -> Seq<Seq<u8>> {
    Seq::new(n, |k: int| text_mask(font, text, -160 * k, 0))
}

/// How many masks a line of text takes.
pub open spec fn masks_for(width: nat) -> nat {
    (width + 159) / 160
}

/// Text at a multiple of its font's size.
pub open spec fn scaled_text(
    text: Seq<char>,
    font: Font,
    x: int,
    y: int,
    scale: int,
    color: u16,
) -> Seq<Draw> {
    let g = Scaling {
        w: width_of(font, text) as usize,
        h: font.height() as usize,
        x: x as i32,
        y: y as i32,
        scale: scale as i32,
        color,
    };
    scaled_rows(line_masks(font, text, masks_for(width_of(font, text))), g, font.height())
}

fn render_line(font: Font, text: &str, n: usize) -> (masks: Vec<Vec<u8>>)
    requires
        text_fits(font, text@.len(), 0, 0),
        (n - 1) * 160 <= i32::MAX,
    ensures
        mask_views(masks@) == line_masks(font, text@, n as nat),
        masks@.len() == n,
        forall|k: int| 0 <= k < masks@.len() ==> (#[trigger] masks@[k])@.len() == PIXELS,
{
    let mut masks: Vec<Vec<u8>> = Vec::new();
    let mut k: usize = 0;
    while k < n
        invariant
            text_fits(font, text@.len(), 0, 0),
            (n - 1) * 160 <= i32::MAX,
            k <= n,
            masks@.len() == k,
            forall|j: int| 0 <= j < k ==> (#[trigger] masks@[j])@.len() == PIXELS,
            forall|j: int|
                0 <= j < k ==> (#[trigger] masks@[j])@ == text_mask(font, text@, -160 * j, 0),
        decreases n - k,
    {
        let along: i32 = k as i32 * 160;
        masks.push(render_text(font, text, -along, 0));
        k = k + 1;
    }
    assert(mask_views(masks@) =~= line_masks(font, text@, n as nat));
    masks
}

/// Adds text at a multiple of its font's size: every lit pixel becomes a
/// square.
pub fn draw_scaled_text(
    ops: &mut Vec<Op>,
    text: &str,
    font: Font,
    x: i32,
    y: i32,
    scale: i32,
    color: u16,
)
    requires
        all_near(draws(old(ops)@)),
        text_fits(font, text@.len(), 0, 0),
        (Scaling {
            w: width_of(font, text@) as usize,
            h: font.height() as usize,
            x,
            y,
            scale,
            color,
        }).wf(),
    ensures
        all_near(draws(final(ops)@)),
        draws(final(ops)@) == draws(old(ops)@) + scaled_text(
            text@,
            font,
            x as int,
            y as int,
            scale as int,
            color,
        ),
{
    let w: usize = text_width(font, text) as usize;
    let h: usize = character_size(font).1 as usize;
    let masks = render_line(font, text, (w + 159) / 160);
    draw_scaled_masks(ops, &masks, Scaling { w, h, x, y, scale, color });
}

} // verus!
