//! What a graph shows: the newest samples, one column each, the last sample at
//! the right edge, every column in proportion.

use vstd::prelude::*;

use crate::framebuffer::Draw;
use crate::layout::{
    bar_height, count_column, counts, net_half, peak_of, shown_samples, spark,
    spark_column, sparkline, sparkline_scaled, Graph, Palette,
};
use crate::laws::graphs::law_peak_is_the_largest;

verus! {

/// Whether an operation is the column at `x` of a value: one pixel wide, as
/// high as the value's share of the peak in `height` rows, rounded up, and
/// standing on the row above `base`, or hanging below the row `base`.
pub open spec fn is_column(
    d: Draw,
    x: int,
    base: int,
    up: bool,
    value: int,
    height: int,
    peak: int,
    color: u16,
) -> bool {
    d matches Draw::Fill { x: dx, y, w, h, color: c } && {
        &&& dx == x
        &&& w == 1
        &&& h >= 1
        &&& (h - 1) * peak < value * height <= h * peak
        &&& if up {
            y + h == base
        } else {
            y == base + 1
        }
        &&& c == color
    }
}

/// Whether a drawing has the column at `x` of a value.
pub open spec fn has_column(
    ds: Seq<Draw>,
    x: int,
    base: int,
    up: bool,
    value: int,
    height: int,
    peak: int,
    color: u16,
) -> bool {
    exists|d: Draw| #[trigger]
        ds.contains(d) && is_column(d, x, base, up, value, height, peak, color)
}

/// Whether `peak` is the largest of the newest `width` samples, or the floor
/// where that is larger.
pub open spec fn is_peak(s: Seq<u32>, width: int, floor: int, peak: int) -> bool {
    &&& peak >= floor
    &&& forall|i: int| 0 <= i < width && i < s.len() ==> #[trigger] s[s.len() - 1 - i] <= peak
    &&& peak == floor || exists|i: int|
        0 <= i < width && i < s.len() && #[trigger] s[s.len() - 1 - i] == peak
}

/// Whether an operation is the column of one of the newest `width` counts in
/// a graph that ends before column `right`.
pub open spec fn is_count(
    d: Draw,
    s: Seq<u32>,
    width: int,
    right: int,
    base: int,
    up: bool,
    height: int,
    peak: int,
    color: u16,
) -> bool {
    exists|i: int|
        0 <= i < width && i < s.len() && is_column(
            d,
            right - 1 - i,
            base,
            up,
            #[trigger] s[s.len() - 1 - i] as int,
            height,
            peak,
            color,
        )
}

/// A percentage as a graph shows it: above a hundred like a hundred.
pub open spec fn capped(value: u8) -> int {
    if value <= 100 {
        value as int
    } else {
        100
    }
}

/// Whether an operation is the column of one of the newest percentages in a
/// graph.
pub open spec fn is_spark(d: Draw, s: Seq<u8>, g: Graph, p: Palette) -> bool {
    exists|i: int|
        0 <= i < g.width && i < s.len() && is_column(
            d,
            g.x + g.width - 1 - i,
            g.y + g.height,
            true,
            capped(#[trigger] s[s.len() - 1 - i]),
            g.height as int,
            100,
            p.color(s[s.len() - 1 - i]),
        )
}

/// What a list with one more entry holds.
pub proof fn lemma_in_push<T>(s: Seq<T>, v: T)
    ensures
        forall|x: T| #[trigger] s.push(v).contains(x) <==> s.contains(x) || x == v,
{
    let t = s.push(v);
    assert forall|x: T| #[trigger] t.contains(x) <==> s.contains(x) || x == v by {
        if t.contains(x) {
            let i = choose|i: int| 0 <= i < t.len() && t[i] == x;
            if i < s.len() {
                assert(s[i] == x);
            }
        }
        if s.contains(x) {
            let i = choose|i: int| 0 <= i < s.len() && s[i] == x;
            assert(t[i] == x);
        }
        assert(t[s.len() as int] == v);
    }
}

/// What two lists hold together.
pub proof fn lemma_in_both<T>(a: Seq<T>, b: Seq<T>)
    ensures
        forall|x: T| #[trigger] (a + b).contains(x) <==> a.contains(x) || b.contains(x),
{
    let t = a + b;
    assert forall|x: T| #[trigger] t.contains(x) <==> a.contains(x) || b.contains(x) by {
        if t.contains(x) {
            let i = choose|i: int| 0 <= i < t.len() && t[i] == x;
            if i < a.len() {
                assert(a[i] == x);
            } else {
                assert(b[i - a.len()] == x);
            }
        }
        if a.contains(x) {
            let i = choose|i: int| 0 <= i < a.len() && a[i] == x;
            assert(t[i] == x);
        }
        if b.contains(x) {
            let i = choose|i: int| 0 <= i < b.len() && b[i] == x;
            assert(t[a.len() + i] == x);
        }
    }
}

proof fn lemma_rounded_up(n: int, d: int)
    requires
        n >= 0,
        d >= 1,
    ensures
        ((n + d - 1) / d - 1) * d < n <= ((n + d - 1) / d) * d,
        (n + d - 1) / d > 0 <==> n > 0,
        (n + d - 1) / d >= 0,
{
    let q = (n + d - 1) / d;
    assert((q - 1) * d < n <= q * d && q >= 0 && (q > 0 <==> n > 0)) by (nonlinear_arith)
        requires
            q == (n + d - 1) / d,
            n >= 0,
            d >= 1,
    ;
}

proof fn lemma_no_column_of_zero(
    d: Draw,
    x: int,
    base: int,
    up: bool,
    value: int,
    height: int,
    peak: int,
    color: u16,
)
    requires
        is_column(d, x, base, up, value, height, peak, color),
        value >= 0,
        peak >= 1,
    ensures
        value > 0,
{
    let h = d->h as int;
    assert(value > 0) by (nonlinear_arith)
        requires
            (h - 1) * peak < value * height,
            h >= 1,
            peak >= 1,
            value >= 0,
    ;
}

proof fn lemma_one_column(
    c: Draw,
    d: Draw,
    x: int,
    base: int,
    up: bool,
    value: int,
    height: int,
    peak: int,
    color: u16,
)
    requires
        is_column(c, x, base, up, value, height, peak, color),
        is_column(d, x, base, up, value, height, peak, color),
        peak >= 1,
    ensures
        c == d,
{
    let (h, k, n) = (c->h as int, d->h as int, value * height);
    assert(h == k) by (nonlinear_arith)
        requires
            (h - 1) * peak < n <= h * peak,
            (k - 1) * peak < n <= k * peak,
            peak >= 1,
    ;
}

proof fn lemma_counts(
    s: Seq<u32>,
    right: int,
    base: int,
    up: bool,
    height: int,
    peak: int,
    color: u16,
    n: nat,
)
    requires
        n <= s.len(),
        height >= 1,
        peak >= 1,
    ensures
        forall|i: int|
            0 <= i < n && #[trigger] s[s.len() - 1 - i] > 0 ==> counts(
                s,
                right,
                base,
                up,
                height,
                peak,
                color,
                n,
            ).contains(count_column(s, right, base, up, height, peak, color, i)),
        forall|d: Draw| #[trigger]
            counts(s, right, base, up, height, peak, color, n).contains(d) ==> is_count(
                d,
                s,
                n as int,
                right,
                base,
                up,
                height,
                peak,
                color,
            ),
    decreases n,
{
    let all = counts(s, right, base, up, height, peak, color, n);
    if n > 0 {
        let m = (n - 1) as nat;
        let rest = counts(s, right, base, up, height, peak, color, m);
        let last = count_column(s, right, base, up, height, peak, color, n - 1);
        lemma_counts(s, right, base, up, height, peak, color, m);
        lemma_in_push(rest, last);
        let v = s[s.len() - 1 - (n - 1)] as int;
        assert(s[s.len() - n] == v);
        assert(v * height >= 0 && (v * height > 0 <==> v > 0)) by (nonlinear_arith)
            requires
                v >= 0,
                height >= 1,
        ;
        lemma_rounded_up(v * height, peak);
        assert forall|i: int| 0 <= i < n && #[trigger] s[s.len() - 1 - i] > 0 implies all.contains(
            count_column(s, right, base, up, height, peak, color, i),
        ) by {
            if i < m {
                assert(rest.contains(count_column(s, right, base, up, height, peak, color, i)));
            }
        }
        assert forall|d: Draw| #[trigger] all.contains(d) implies is_count(
            d,
            s,
            n as int,
            right,
            base,
            up,
            height,
            peak,
            color,
        ) by {
            if rest.contains(d) {
                assert(is_count(d, s, m as int, right, base, up, height, peak, color));
            } else {
                assert(d == last);
                assert(is_column(d, right - 1 - (n - 1), base, up, v, height, peak, color));
            }
        }
    }
}

proof fn lemma_is_the_peak(s: Seq<u32>, width: int, floor: int, peak: int)
    requires
        width >= 0,
        is_peak(s, width, floor, peak),
    ensures
        peak == peak_of(s, shown_samples(s.len(), width as nat), floor),
{
    let n = shown_samples(s.len(), width as nat);
    let q = peak_of(s, n, floor);
    law_peak_is_the_largest(s, n, floor);
    if q != floor {
        let i = choose|i: int| 0 <= i < n && (#[trigger] s[s.len() - 1 - i]) == q;
        assert(s[s.len() - 1 - i] <= peak);
    }
    if peak != floor {
        let i = choose|i: int|
            0 <= i < width && i < s.len() && #[trigger] s[s.len() - 1 - i] == peak;
        assert(s[s.len() - 1 - i] <= q);
    }
}

proof fn lemma_count_graph(
    ds: Seq<Draw>,
    s: Seq<u32>,
    width: int,
    right: int,
    base: int,
    up: bool,
    height: int,
    floor: int,
    peak: int,
    color: u16,
)
    requires
        width >= 0,
        height >= 1,
        floor >= 1,
        is_peak(s, width, floor, peak),
        ds == counts(
            s,
            right,
            base,
            up,
            height,
            peak_of(s, shown_samples(s.len(), width as nat), floor),
            color,
            shown_samples(s.len(), width as nat),
        ),
    ensures
        forall|i: int|
            0 <= i < width && i < s.len() && #[trigger] s[s.len() - 1 - i] > 0 ==> has_column(
                ds,
                right - 1 - i,
                base,
                up,
                s[s.len() - 1 - i] as int,
                height,
                peak,
                color,
            ),
        forall|d: Draw| #[trigger]
            ds.contains(d) <==> is_count(d, s, width, right, base, up, height, peak, color),
{
    let n = shown_samples(s.len(), width as nat);
    lemma_is_the_peak(s, width, floor, peak);
    lemma_counts(s, right, base, up, height, peak, color, n);
    assert forall|i: int|
        0 <= i < width && i < s.len() && #[trigger] s[s.len() - 1 - i] > 0 implies has_column(
        ds,
        right - 1 - i,
        base,
        up,
        s[s.len() - 1 - i] as int,
        height,
        peak,
        color,
    ) by {
        let v = s[s.len() - 1 - i] as int;
        let d = count_column(s, right, base, up, height, peak, color, i);
        assert(ds.contains(d));
        assert(v * height > 0) by (nonlinear_arith)
            requires
                v > 0,
                height >= 1,
        ;
        lemma_rounded_up(v * height, peak);
        assert(is_column(d, right - 1 - i, base, up, v, height, peak, color));
    }
    assert forall|d: Draw| #[trigger] ds.contains(d) <==> is_count(
        d,
        s,
        width,
        right,
        base,
        up,
        height,
        peak,
        color,
    ) by {
        if ds.contains(d) {
            assert(is_count(d, s, n as int, right, base, up, height, peak, color));
            let i = choose|i: int|
                0 <= i < n && i < s.len() && is_column(
                    d,
                    right - 1 - i,
                    base,
                    up,
                    #[trigger] s[s.len() - 1 - i] as int,
                    height,
                    peak,
                    color,
                );
            assert(0 <= i < width && i < s.len());
        }
        if is_count(d, s, width, right, base, up, height, peak, color) {
            let i = choose|i: int|
                0 <= i < width && i < s.len() && is_column(
                    d,
                    right - 1 - i,
                    base,
                    up,
                    #[trigger] s[s.len() - 1 - i] as int,
                    height,
                    peak,
                    color,
                );
            let v = s[s.len() - 1 - i] as int;
            lemma_no_column_of_zero(d, right - 1 - i, base, up, v, height, peak, color);
            assert(has_column(ds, right - 1 - i, base, up, v, height, peak, color));
            let c = choose|c: Draw| #[trigger]
                ds.contains(c) && is_column(c, right - 1 - i, base, up, v, height, peak, color);
            lemma_one_column(c, d, right - 1 - i, base, up, v, height, peak, color);
        }
    }
}

/// Either half of the network graph shows the newest 124 samples of its
/// series, however long that is: the sample before the `i` last ones has the
/// column `i` pixels from the right edge, in proportion to the largest of
/// them, or to ten thousand where that is more. A sample of zero has no
/// column, and nothing else is drawn.
pub proof fn law_network_graph_shows_the_newest(
    s: Seq<u32>,
    mid: int,
    up: bool,
    height: int,
    color: u16,
    peak: int,
)
    requires
        height >= 1,
        is_peak(s, 124, 10_000, peak),
    ensures
        forall|i: int|
            0 <= i < 124 && i < s.len() && #[trigger] s[s.len() - 1 - i] > 0 ==> has_column(
                net_half(s, mid, up, height, color),
                131 - i,
                mid,
                up,
                s[s.len() - 1 - i] as int,
                height,
                peak,
                color,
            ),
        forall|d: Draw| #[trigger]
            net_half(s, mid, up, height, color).contains(d) <==> is_count(
                d,
                s,
                124,
                132,
                mid,
                up,
                height,
                peak,
                color,
            ),
{
    let ds = net_half(s, mid, up, height, color);
    lemma_count_graph(ds, s, 124, 132, mid, up, height, 10_000, peak, color);
}

/// A sparkline of counts shows the newest samples of its series, as many as
/// it has columns: the last one at the right edge, each in proportion to the
/// largest of them, or to the floor where that is more. A sample of zero has
/// no column, and nothing else is drawn.
pub proof fn law_count_graphs_show_the_newest(
    s: Seq<u32>,
    g: Graph,
    floor: int,
    color: u16,
    peak: int,
)
    requires
        g.height >= 1,
        floor >= 1,
        is_peak(s, g.width as int, floor, peak),
    ensures
        forall|i: int|
            0 <= i < g.width && i < s.len() && #[trigger] s[s.len() - 1 - i] > 0 ==> has_column(
                sparkline_scaled(s, g, floor, color),
                g.x + g.width - 1 - i,
                g.y + g.height,
                true,
                s[s.len() - 1 - i] as int,
                g.height as int,
                peak,
                color,
            ),
        forall|d: Draw| #[trigger]
            sparkline_scaled(s, g, floor, color).contains(d) <==> is_count(
                d,
                s,
                g.width as int,
                g.x + g.width,
                g.y + g.height,
                true,
                g.height as int,
                peak,
                color,
            ),
{
    let ds = sparkline_scaled(s, g, floor, color);
    lemma_count_graph(
        ds,
        s,
        g.width as int,
        g.x + g.width,
        g.y + g.height,
        true,
        g.height as int,
        floor,
        peak,
        color,
    );
}

proof fn lemma_spark(s: Seq<u8>, g: Graph, p: Palette, n: nat)
    requires
        n <= s.len(),
        n <= g.width,
        g.height >= 1,
    ensures
        forall|i: int|
            0 <= i < n && #[trigger] s[s.len() - 1 - i] > 0 ==> spark(s, g, p, n).contains(
                spark_column(s, g, p, i),
            ),
        forall|d: Draw| #[trigger] spark(s, g, p, n).contains(d) ==> is_spark(d, s, g, p),
    decreases n,
{
    let all = spark(s, g, p, n);
    if n > 0 {
        let m = (n - 1) as nat;
        let rest = spark(s, g, p, m);
        let last = spark_column(s, g, p, n - 1);
        lemma_spark(s, g, p, m);
        lemma_in_push(rest, last);
        let v = s[s.len() - 1 - (n - 1)];
        assert(s[s.len() - n] == v);
        lemma_bar(v, g.height as int);
        assert forall|i: int| 0 <= i < n && #[trigger] s[s.len() - 1 - i] > 0 implies all.contains(
            spark_column(s, g, p, i),
        ) by {
            if i < m {
                assert(rest.contains(spark_column(s, g, p, i)));
            }
        }
        assert forall|d: Draw| #[trigger] all.contains(d) implies is_spark(d, s, g, p) by {
            if !rest.contains(d) {
                assert(d == last);
                assert(is_column(
                    d,
                    g.x + g.width - 1 - (n - 1),
                    g.y + g.height,
                    true,
                    capped(v),
                    g.height as int,
                    100,
                    p.color(v),
                ));
            }
        }
    }
}

proof fn lemma_bar(v: u8, height: int)
    requires
        height >= 1,
    ensures
        ({
            let h = bar_height(v as int, height);
            &&& (h - 1) * 100 < capped(v) * height <= h * 100
            &&& h > 0 <==> v > 0
            &&& h >= 0
        }),
{
    let c = capped(v);
    assert(c * height >= 0 && (c * height > 0 <==> c > 0)) by (nonlinear_arith)
        requires
            c >= 0,
            height >= 1,
    ;
    lemma_rounded_up(c * height, 100);
}

/// A sparkline of percentages shows the newest samples of its series, as many
/// as it has columns: the last one at the right edge, each in proportion to a
/// hundred and in its own color. A sample of zero has no column, and nothing
/// else is drawn.
pub proof fn law_sparklines_show_the_newest(s: Seq<u8>, g: Graph, p: Palette)
    requires
        g.height >= 1,
    ensures
        forall|i: int|
            0 <= i < g.width && i < s.len() && #[trigger] s[s.len() - 1 - i] > 0 ==> has_column(
                sparkline(s, g, p),
                g.x + g.width - 1 - i,
                g.y + g.height,
                true,
                capped(s[s.len() - 1 - i]),
                g.height as int,
                100,
                p.color(s[s.len() - 1 - i]),
            ),
        forall|d: Draw| #[trigger] sparkline(s, g, p).contains(d) <==> is_spark(d, s, g, p),
{
    let n = shown_samples(s.len(), g.width as nat);
    let ds = sparkline(s, g, p);
    lemma_spark(s, g, p, n);
    assert forall|i: int|
        0 <= i < g.width && i < s.len() && #[trigger] s[s.len() - 1 - i] > 0 implies has_column(
        ds,
        g.x + g.width - 1 - i,
        g.y + g.height,
        true,
        capped(s[s.len() - 1 - i]),
        g.height as int,
        100,
        p.color(s[s.len() - 1 - i]),
    ) by {
        let v = s[s.len() - 1 - i];
        let d = spark_column(s, g, p, i);
        lemma_bar(v, g.height as int);
        assert(ds.contains(d));
        assert(is_column(
            d,
            g.x + g.width - 1 - i,
            g.y + g.height,
            true,
            capped(v),
            g.height as int,
            100,
            p.color(v),
        ));
    }
    assert forall|d: Draw| #[trigger] ds.contains(d) <==> is_spark(d, s, g, p) by {
        if is_spark(d, s, g, p) {
            let i = choose|i: int|
                0 <= i < g.width && i < s.len() && is_column(
                    d,
                    g.x + g.width - 1 - i,
                    g.y + g.height,
                    true,
                    capped(#[trigger] s[s.len() - 1 - i]),
                    g.height as int,
                    100,
                    p.color(s[s.len() - 1 - i]),
                );
            let v = s[s.len() - 1 - i];
            let (x, base, h) = (g.x + g.width - 1 - i, g.y + g.height, g.height as int);
            lemma_no_column_of_zero(d, x, base, true, capped(v), h, 100, p.color(v));
            assert(has_column(ds, x, base, true, capped(v), h, 100, p.color(v)));
            let c = choose|c: Draw| #[trigger]
                ds.contains(c) && is_column(c, x, base, true, capped(v), h, 100, p.color(v));
            lemma_one_column(c, d, x, base, true, capped(v), h, 100, p.color(v));
        }
    }
}

} // verus!
