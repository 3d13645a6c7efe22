//! The graphs: what a column's height says, and that columns stay in their
//! graph.

use vstd::prelude::*;

use crate::color::{load_color, GREEN, RED, YELLOW};
use crate::framebuffer::Draw;
use crate::layout::{
    bar_height, counts, gauge_lit, net_half, peak_of, scaled_height, shown_samples, spark,
    spark_column, sparkline, sparkline_scaled, Graph, Palette, NET_FLOOR, NET_GRAPH_X,
};
use crate::history::NET_GRAPH_WIDTH;

verus! {

/// The column of a percentage never exceeds its graph, fills it at a hundred,
/// and is empty at zero only.
pub proof fn law_bars_fit_their_graph(value: int, height: int)
    requires
        0 <= value <= 255,
        1 <= height,
    ensures
        0 <= bar_height(value, height) <= height,
        value >= 100 ==> bar_height(value, height) == height,
        bar_height(value, height) == 0 <==> value == 0,
{
    let v = if value <= 100 {
        value
    } else {
        100
    };
    assert(0 <= v * height <= 100 * height) by (nonlinear_arith)
        requires
            0 <= v <= 100,
            height >= 1,
    ;
    if value > 0 {
        assert(v * height >= 1) by (nonlinear_arith)
            requires
                v >= 1,
                height >= 1,
        ;
    } else {
        assert(0 * height == 0) by (nonlinear_arith);
    }
}

/// A larger percentage never has a smaller column.
pub proof fn law_bars_grow_with_the_value(a: int, b: int, height: int)
    requires
        0 <= a <= b <= 255,
        0 <= height,
    ensures
        bar_height(a, height) <= bar_height(b, height),
{
    let p = if a <= 100 {
        a
    } else {
        100
    };
    let q = if b <= 100 {
        b
    } else {
        100
    };
    assert(p * height <= q * height) by (nonlinear_arith)
        requires
            p <= q,
            height >= 0,
    ;
}

/// The column of a count fills its graph at the peak, never exceeds it below
/// the peak, and is empty at zero only.
pub proof fn law_counts_scale_to_the_peak(value: int, height: int, peak: int)
    requires
        0 <= value <= peak,
        1 <= height,
        1 <= peak,
    ensures
        0 <= scaled_height(value, height, peak) <= height,
        value == peak ==> scaled_height(value, height, peak) == height,
        scaled_height(value, height, peak) == 0 <==> value == 0,
{
    let n = value * height + peak - 1;
    assert(0 <= value * height <= peak * height) by (nonlinear_arith)
        requires
            0 <= value <= peak,
            height >= 1,
    ;
    assert(n / peak <= height) by (nonlinear_arith)
        requires
            n <= peak * height + peak - 1,
            peak >= 1,
    ;
    assert(n / peak >= 0) by (nonlinear_arith)
        requires
            n >= 0,
            peak >= 1,
    ;
    if value == peak {
        assert(n / peak >= height) by (nonlinear_arith)
            requires
                n >= peak * height,
                peak >= 1,
        ;
    }
    if value == 0 {
        assert(n == peak - 1) by (nonlinear_arith)
            requires
                n == 0 * height + peak - 1,
        ;
        assert((peak - 1) / peak == 0) by (nonlinear_arith)
            requires
                peak >= 1,
        ;
    } else {
        assert(value * height >= 1) by (nonlinear_arith)
            requires
                value >= 1,
                height >= 1,
        ;
        assert(n / peak >= 1) by (nonlinear_arith)
            requires
                n >= peak,
                peak >= 1,
        ;
    }
}

/// The peak of a graph is its floor or one of the samples that it shows, and
/// none of these is larger.
pub proof fn law_peak_is_the_largest(s: Seq<u32>, n: nat, floor: int)
    requires
        n <= s.len(),
    ensures
        peak_of(s, n, floor) >= floor,
        forall|i: int| 0 <= i < n ==> (#[trigger] s[s.len() - 1 - i]) <= peak_of(s, n, floor),
        peak_of(s, n, floor) == floor || exists|i: int|
            0 <= i < n && (#[trigger] s[s.len() - 1 - i]) == peak_of(s, n, floor),
    decreases n,
{
    if n > 0 {
        law_peak_is_the_largest(s, (n - 1) as nat, floor);
        assert(s[s.len() - n] == s[s.len() - 1 - (n - 1)]);
        let rest = peak_of(s, (n - 1) as nat, floor);
        if s[s.len() - n] <= rest && rest != floor {
            let i = choose|i: int| 0 <= i < n - 1 && (#[trigger] s[s.len() - 1 - i]) == rest;
            assert(s[s.len() - 1 - i] == peak_of(s, n, floor));
        }
    }
}

/// Whether an operation is a column within a rectangle.
pub open spec fn column_within(d: Draw, x0: int, x1: int, y0: int, y1: int) -> bool {
    d matches Draw::Fill { x, y, w, h, .. } && w == 1 && h >= 1 && x0 <= x < x1 && y0 <= y && y + h
        <= y1
}

/// Whether all operations are columns within a rectangle.
pub open spec fn columns_within(ds: Seq<Draw>, x0: int, x1: int, y0: int, y1: int) -> bool {
    forall|k: int| 0 <= k < ds.len() ==> column_within(#[trigger] ds[k], x0, x1, y0, y1)
}

proof fn lemma_spark_within(s: Seq<u8>, g: Graph, p: Palette, n: nat)
    requires
        g.wf(),
        g.height >= 1,
        n <= s.len(),
        n <= g.width,
    ensures
        columns_within(
            spark(s, g, p, n),
            g.x as int,
            g.x + g.width,
            g.y as int,
            g.y + g.height,
        ),
    decreases n,
{
    if n > 0 {
        lemma_spark_within(s, g, p, (n - 1) as nat);
        law_bars_fit_their_graph(s[s.len() - n] as int, g.height as int);
        assert(s[s.len() - n] == s[s.len() - 1 - (n - 1)]);
    }
}

/// A sparkline stays in its graph, and its newest sample, where it is not
/// zero, is the column at the right edge.
pub proof fn law_sparklines_stay_in_their_graph(s: Seq<u8>, g: Graph, p: Palette)
    requires
        g.wf(),
        g.height >= 1,
        g.width >= 1,
    ensures
        columns_within(
            sparkline(s, g, p),
            g.x as int,
            g.x + g.width,
            g.y as int,
            g.y + g.height,
        ),
        s.len() > 0 && s.last() > 0 ==> sparkline(s, g, p).len() > 0 && (sparkline(s, g, p)[0]
            matches Draw::Fill { x, color, .. } && x == g.x + g.width - 1 && color == p.color(
            s.last(),
        )),
{
    let n = shown_samples(s.len(), g.width as nat);
    lemma_spark_within(s, g, p, n);
    if s.len() > 0 && s.last() > 0 {
        law_bars_fit_their_graph(s.last() as int, g.height as int);
        lemma_first_column(s, g, p, n);
    }
}

proof fn lemma_first_column(s: Seq<u8>, g: Graph, p: Palette, n: nat)
    requires
        1 <= n <= s.len(),
        bar_height(s.last() as int, g.height as int) > 0,
    ensures
        spark(s, g, p, n).len() > 0,
        spark(s, g, p, n)[0] == spark_column(s, g, p, 0),
    decreases n,
{
    if n > 1 {
        lemma_first_column(s, g, p, (n - 1) as nat);
    } else {
        assert(spark(s, g, p, 0) =~= Seq::<Draw>::empty());
    }
}

proof fn lemma_counts_within(
    s: Seq<u32>,
    right: int,
    base: int,
    up: bool,
    height: int,
    floor: int,
    color: u16,
    n: nat,
    m: nat,
)
    requires
        height >= 1,
        floor >= 1,
        m <= n <= s.len(),
    ensures
        columns_within(
            counts(s, right, base, up, height, peak_of(s, n, floor), color, m),
            right - n,
            right,
            if up {
                base - height
            } else {
                base + 1
            },
            if up {
                base
            } else {
                base + 1 + height
            },
        ),
    decreases m,
{
    if m > 0 {
        lemma_counts_within(s, right, base, up, height, floor, color, n, (m - 1) as nat);
        law_peak_is_the_largest(s, n, floor);
        let v = s[s.len() - m];
        assert(v == s[s.len() - 1 - (m - 1)]);
        law_counts_scale_to_the_peak(v as int, height, peak_of(s, n, floor));
    }
}

/// A graph of counts stays in its rectangle.
pub proof fn law_count_graphs_stay_in_their_graph(s: Seq<u32>, g: Graph, floor: int, color: u16)
    requires
        g.wf(),
        g.height >= 1,
        floor >= 1,
    ensures
        columns_within(
            sparkline_scaled(s, g, floor, color),
            g.x as int,
            g.x + g.width,
            g.y as int,
            g.y + g.height,
        ),
{
    let n = shown_samples(s.len(), g.width as nat);
    lemma_counts_within(
        s,
        g.x + g.width,
        g.y + g.height,
        true,
        g.height as int,
        floor,
        color,
        n,
        n,
    );
}

/// The two halves of the network graph keep to their sides of the middle
/// row: received data above it, sent data below.
pub proof fn law_network_halves_keep_apart(
    rx: Seq<u32>,
    tx: Seq<u32>,
    mid: int,
    height: int,
    a: u16,
    b: u16,
)
    requires
        height >= 1,
    ensures
        columns_within(
            net_half(rx, mid, true, height, a),
            NET_GRAPH_X as int,
            NET_GRAPH_X + NET_GRAPH_WIDTH,
            mid - height,
            mid,
        ),
        columns_within(
            net_half(tx, mid, false, height, b),
            NET_GRAPH_X as int,
            NET_GRAPH_X + NET_GRAPH_WIDTH,
            mid + 1,
            mid + 1 + height,
        ),
{
    let right = NET_GRAPH_X + NET_GRAPH_WIDTH;
    let n = shown_samples(rx.len(), NET_GRAPH_WIDTH as nat);
    let m = shown_samples(tx.len(), NET_GRAPH_WIDTH as nat);
    lemma_counts_within(rx, right, mid, true, height, NET_FLOOR as int, a, n, n);
    lemma_counts_within(tx, right, mid, false, height, NET_FLOOR as int, b, m, m);
}

/// The busiest sample of a graph of counts, once above the floor, has the
/// graph's full height, in either direction.
pub proof fn law_busiest_sample_fills_the_graph(s: Seq<u32>, n: nat, floor: int, height: int)
    requires
        n <= s.len(),
        floor >= 1,
        height >= 1,
        peak_of(s, n, floor) > floor,
    ensures
        exists|i: int|
            0 <= i < n && scaled_height(
                (#[trigger] s[s.len() - 1 - i]) as int,
                height,
                peak_of(s, n, floor),
            ) == height,
{
    law_peak_is_the_largest(s, n, floor);
    let peak = peak_of(s, n, floor);
    let i = choose|i: int| 0 <= i < n && (#[trigger] s[s.len() - 1 - i]) == peak;
    law_counts_scale_to_the_peak(peak, height, peak);
    assert(scaled_height(s[s.len() - 1 - i] as int, height, peak) == height);
}

/// The load gradient runs from green at idle through yellow at half to red
/// when pinned, and stays red above.
pub proof fn law_load_gradient(percent: int)
    requires
        percent >= 100,
    ensures
        load_color(0) == GREEN,
        load_color(50) == YELLOW,
        load_color(percent) == RED,
{
}

/// The gauge lights its ten segments in proportion: none at zero, one for
/// each full ten percent, all from a hundred on, and never fewer for a larger
/// percentage.
pub proof fn law_gauge_in_proportion(a: int, b: int)
    requires
        0 <= a <= b <= 255,
    ensures
        0 <= gauge_lit(a) <= gauge_lit(b) <= 10,
        gauge_lit(0) == 0,
        gauge_lit(100) == 10,
        a <= 100 ==> gauge_lit(a) * 10 <= a < gauge_lit(a) * 10 + 10,
        a >= 100 ==> gauge_lit(a) == 10,
{
}

} // verus!
