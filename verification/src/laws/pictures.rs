//! The pages: what stands on each of them, and where.

use vstd::prelude::*;

use crate::color::{heat_color, load_color};
use crate::font::{text_mask, width_of, Font};
use crate::framebuffer::Draw;
use crate::history::HistoryView;
use crate::layout::{
    gauge, line_masks, lit, masks_for, net_half, scaled_row, scaled_rows, scaled_text, sparkline, sparkline_scaled, stack, value_line, vertical_label,
    Graph, Palette, Scaling,
};
use crate::laws::columns::{
    is_count, is_peak, is_spark, law_count_graphs_show_the_newest,
    law_network_graph_shows_the_newest, law_sparklines_show_the_newest, lemma_in_both,
    lemma_in_push,
};
use crate::numbers::{count_text, decimal, gib_text, rate_text};
use crate::pages::{
    picture_of, CpuScreen, CpusPage, DiskPage, DiskScreen, MemPage, NetPage, Node, Page,
    ProxmoxPage, RamScreen, TempScreen, TempsPage, WarningsPage,
};
use crate::rotation::PageKind;
use crate::stats::{lower_views, soc_temperature, Stats};

verus! {

/// A line of text on a page.
pub open spec fn line(font: Font, text: Seq<char>, x: int, y: int, color: u16) -> Draw {
    Draw::Text { font, text, x, y, color }
}

/// A line of text, in cells `cell` pixels wide, that ends before column
/// `right`.
pub open spec fn line_to(
    font: Font,
    cell: int,
    text: Seq<char>,
    right: int,
    y: int,
    color: u16,
) -> Draw {
    Draw::Text { font, text, x: right - cell * text.len(), y, color }
}

/// A filled rectangle on a page.
pub open spec fn rectangle(x: int, y: int, w: nat, h: nat, color: u16) -> Draw {
    Draw::Fill { x, y, w, h, color }
}

/// What a list of one entry holds.
proof fn lemma_in_one<T>(v: T)
    ensures
        forall|x: T| #[trigger] seq![v].contains(x) <==> x == v,
{
    let s = seq![v];
    assert forall|x: T| #[trigger] s.contains(x) <==> x == v by {
        assert(s[0] == v);
    }
}

// ---- enlarged text ----

/// The square for the pixel at `row` and `col` of an enlarged text.
spec fn block(g: Scaling, row: int, col: int) -> Draw {
    rectangle(
        g.x + col * g.scale,
        g.y + row * g.scale,
        g.scale as nat,
        g.scale as nat,
        g.color,
    )
}

/// Whether an operation is the square for a lit pixel of the first `rows`
/// rows and the first `cols` columns.
spec fn is_block(d: Draw, masks: Seq<Seq<u8>>, g: Scaling, rows: int, cols: int) -> bool {
    exists|row: int, col: int|
        0 <= row < rows && 0 <= col < cols && #[trigger] lit(masks, row, col) && d == block(
            g,
            row,
            col,
        )
}

proof fn lemma_scaled_row(masks: Seq<Seq<u8>>, g: Scaling, row: int, n: nat)
    ensures
        forall|d: Draw| #[trigger]
            scaled_row(masks, g, row, n).contains(d) <==> exists|col: int|
                0 <= col < n && #[trigger] lit(masks, row, col) && d == block(g, row, col),
    decreases n,
{
    let all = scaled_row(masks, g, row, n);
    if n > 0 {
        let m = (n - 1) as nat;
        let rest = scaled_row(masks, g, row, m);
        lemma_scaled_row(masks, g, row, m);
        lemma_in_push(rest, block(g, row, n - 1));
        assert forall|d: Draw| #[trigger] all.contains(d) <==> exists|col: int|
            0 <= col < n && #[trigger] lit(masks, row, col) && d == block(g, row, col) by {
            if exists|col: int|
                0 <= col < n && #[trigger] lit(masks, row, col) && d == block(g, row, col) {
                let col = choose|col: int|
                    0 <= col < n && #[trigger] lit(masks, row, col) && d == block(g, row, col);
                if col < m {
                    assert(rest.contains(d));
                }
            }
            if all.contains(d) {
                if rest.contains(d) {
                    let col = choose|col: int|
                        0 <= col < m && #[trigger] lit(masks, row, col) && d == block(g, row, col);
                    assert(lit(masks, row, col));
                } else {
                    assert(lit(masks, row, n - 1));
                }
            }
        }
    }
}

proof fn lemma_scaled_rows(masks: Seq<Seq<u8>>, g: Scaling, n: nat)
    ensures
        forall|d: Draw| #[trigger]
            scaled_rows(masks, g, n).contains(d) <==> is_block(d, masks, g, n as int, g.w as int),
    decreases n,
{
    let all = scaled_rows(masks, g, n);
    if n > 0 {
        let m = (n - 1) as nat;
        let rest = scaled_rows(masks, g, m);
        let last = scaled_row(masks, g, n - 1, g.w as nat);
        lemma_scaled_rows(masks, g, m);
        lemma_scaled_row(masks, g, n - 1, g.w as nat);
        lemma_in_both(rest, last);
        assert forall|d: Draw| #[trigger] all.contains(d) <==> is_block(
            d,
            masks,
            g,
            n as int,
            g.w as int,
        ) by {
            if all.contains(d) {
                if rest.contains(d) {
                    assert(is_block(d, masks, g, m as int, g.w as int));
                } else {
                    let col = choose|col: int|
                        0 <= col < g.w && #[trigger] lit(masks, n - 1, col) && d == block(
                            g,
                            n - 1,
                            col,
                        );
                    assert(lit(masks, n - 1, col));
                }
            }
            if is_block(d, masks, g, n as int, g.w as int) {
                let (row, col) = choose|row: int, col: int|
                    0 <= row < n && 0 <= col < g.w && #[trigger] lit(masks, row, col) && d == block(
                        g,
                        row,
                        col,
                    );
                if row < m {
                    assert(is_block(d, masks, g, m as int, g.w as int));
                } else {
                    assert(last.contains(d));
                }
            }
        }
    }
}

/// Whether an operation is the square for a pixel that the text, drawn at its
/// own size from the corner of the panel, lights: enlarged by the factor, and
/// as far from `(x, y)` as the pixel is from the corner.
pub open spec fn is_enlarged(
    d: Draw,
    font: Font,
    text: Seq<char>,
    x: int,
    y: int,
    scale: int,
    color: u16,
) -> bool {
    exists|row: int, col: int|
        {
            &&& 0 <= row < font.height()
            &&& 0 <= col < text.len() * font.width()
            &&& #[trigger] text_mask(font, text, 0, 0)[row * 160 + col] != 0
            &&& d == rectangle(x + scale * col, y + scale * row, scale as nat, scale as nat, color)
        }
}

/// Enlarged text of up to a panel's width consists of one square for each
/// pixel that the text lights at its own size, and of nothing else.
pub proof fn law_enlarged_text_is_the_text(
    text: Seq<char>,
    font: Font,
    x: int,
    y: int,
    scale: int,
    color: u16,
    d: Draw,
)
    requires
        i32::MIN <= x <= i32::MAX,
        i32::MIN <= y <= i32::MAX,
        1 <= scale <= i32::MAX,
        text.len() * font.width() <= 160,
    ensures
        scaled_text(text, font, x, y, scale, color).contains(d) <==> is_enlarged(
            d,
            font,
            text,
            x,
            y,
            scale,
            color,
        ),
{
    let w = width_of(font, text);
    let g = Scaling {
        w: w as usize,
        h: font.height() as usize,
        x: x as i32,
        y: y as i32,
        scale: scale as i32,
        color,
    };
    let masks = line_masks(font, text, masks_for(w));
    lemma_scaled_rows(masks, g, font.height());
    assert(masks_for(w) >= 1 || w == 0);
    assert forall|row: int, col: int| 0 <= col < w implies (#[trigger] lit(masks, row, col) <==> text_mask(
        font,
        text,
        0,
        0,
    )[row * 160 + col] != 0) by {
        assert(col / 160 == 0 && col % 160 == col);
        assert(masks[0] == text_mask(font, text, -160 * 0, 0));
    }
    assert forall|row: int, col: int| #[trigger] block(g, row, col) == rectangle(
        x + scale * col,
        y + scale * row,
        scale as nat,
        scale as nat,
        color,
    ) by {
        assert(col * scale == scale * col && row * scale == scale * row) by (nonlinear_arith);
    }
    if scaled_text(text, font, x, y, scale, color).contains(d) {
        let (row, col) = choose|row: int, col: int|
            0 <= row < font.height() && 0 <= col < g.w && #[trigger] lit(masks, row, col) && d
                == block(g, row, col);
        assert(text_mask(font, text, 0, 0)[row * 160 + col] != 0);
    }
    if is_enlarged(d, font, text, x, y, scale, color) {
        let (row, col) = choose|row: int, col: int|
            {
                &&& 0 <= row < font.height()
                &&& 0 <= col < text.len() * font.width()
                &&& #[trigger] text_mask(font, text, 0, 0)[row * 160 + col] != 0
                &&& d == rectangle(
                    x + scale * col,
                    y + scale * row,
                    scale as nat,
                    scale as nat,
                    color,
                )
            };
        assert(lit(masks, row, col));
        assert(d == block(g, row, col));
    }
}

/// The same for text of any width, seen through frames side by side, each a
/// panel's width further along the text.
pub proof fn law_enlarged_text_of_any_width(
    text: Seq<char>,
    font: Font,
    x: int,
    y: int,
    scale: int,
    color: u16,
    row: int,
    col: int,
    d: Draw,
)
    requires
        i32::MIN <= x <= i32::MAX,
        i32::MIN <= y <= i32::MAX,
        1 <= scale <= i32::MAX,
        text.len() * font.width() <= i32::MAX,
        d == rectangle(x + scale * col, y + scale * row, scale as nat, scale as nat, color),
    ensures
        scaled_text(text, font, x, y, scale, color).contains(d) <==> {
            &&& 0 <= row < font.height()
            &&& 0 <= col < text.len() * font.width()
            &&& text_mask(font, text, -160 * (col / 160), 0)[row * 160 + col % 160] != 0
        },
{
    let w = width_of(font, text);
    let g = Scaling {
        w: w as usize,
        h: font.height() as usize,
        x: x as i32,
        y: y as i32,
        scale: scale as i32,
        color,
    };
    let masks = line_masks(font, text, masks_for(w));
    lemma_scaled_rows(masks, g, font.height());
    assert(d == block(g, row, col)) by {
        assert(col * scale == scale * col && row * scale == scale * row) by (nonlinear_arith);
    }
    if 0 <= col < w {
        assert(0 <= col / 160 < masks_for(w));
        assert(masks[col / 160] == text_mask(font, text, -160 * (col / 160), 0));
        assert(lit(masks, row, col) <==> text_mask(font, text, -160 * (col / 160), 0)[row * 160
            + col % 160] != 0);
    }
    if scaled_text(text, font, x, y, scale, color).contains(d) {
        let (r, c) = choose|r: int, c: int|
            0 <= r < font.height() && 0 <= c < g.w && #[trigger] lit(masks, r, c) && d == block(
                g,
                r,
                c,
            );
        assert(r == row && c == col) by (nonlinear_arith)
            requires
                c * scale == col * scale,
                r * scale == row * scale,
                scale >= 1,
        ;
    }
}

// ---- labels ----

/// A vertical label has one letter below the other at the left edge, all as
/// far apart as the height of the page allows: the first begins at its top,
/// and one pixel more between any two would take the last beyond its bottom.
pub proof fn law_labels_spread_over_the_page(text: Seq<char>, font: Font, i: int)
    requires
        text.len() >= 2,
        text.len() * font.height() <= 61,
        0 <= i < text.len(),
    ensures
        ({
            let ds = vertical_label(text, font);
            let p = ds[1]->Text_y;
            let (n, h) = (text.len() as int, font.height() as int);
            &&& ds.len() == text.len()
            &&& ds[i] == line(font, seq![text[i]], 0, i * p, 0xffff)
            &&& p >= h
            &&& (n - 1) * p + h <= 61 < (n - 1) * (p + 1) + h
        }),
{
    let (n, h) = (text.len() as int, font.height() as int);
    let ds = vertical_label(text, font);
    let a = 61 - n * h;
    let b = n - 1;
    assert(a >= 0);
    let q = a / b;
    let p = h + q;
    assert(b * q <= a < b * (q + 1) && q >= 0) by (nonlinear_arith)
        requires
            q == a / b,
            b >= 1,
            a >= 0,
    ;
    assert(1 * p == p) by (nonlinear_arith);
    assert(ds[1]->Text_y == p);
    assert(b * p == b * h + b * q && b * (p + 1) == b * h + b * (q + 1) && n * h == b * h + h)
        by (nonlinear_arith)
        requires
            p == h + q,
            b == n - 1,
    ;
}

proof fn lemma_label_4(text: Seq<char>, font: Font, x: int, top: int, pitch: int, color: u16)
    requires
        text.len() == 4,
    ensures
        forall|d: Draw| #[trigger]
            stack(text, font, x, top, pitch, color).contains(d) <==> {
                ||| d == line(font, seq![text[0]], x, top, color)
                ||| d == line(font, seq![text[1]], x, top + pitch, color)
                ||| d == line(font, seq![text[2]], x, top + 2 * pitch, color)
                ||| d == line(font, seq![text[3]], x, top + 3 * pitch, color)
            },
{
    let s = stack(text, font, x, top, pitch, color);
    assert(0 * pitch == 0 && 1 * pitch == pitch) by (nonlinear_arith);
    assert(s[0] == line(font, seq![text[0]], x, top, color));
    assert(s[1] == line(font, seq![text[1]], x, top + pitch, color));
    assert(s[2] == line(font, seq![text[2]], x, top + 2 * pitch, color));
    assert(s[3] == line(font, seq![text[3]], x, top + 3 * pitch, color));
}

proof fn lemma_label_3(text: Seq<char>, font: Font, x: int, top: int, pitch: int, color: u16)
    requires
        text.len() == 3,
    ensures
        forall|d: Draw| #[trigger]
            stack(text, font, x, top, pitch, color).contains(d) <==> {
                ||| d == line(font, seq![text[0]], x, top, color)
                ||| d == line(font, seq![text[1]], x, top + pitch, color)
                ||| d == line(font, seq![text[2]], x, top + 2 * pitch, color)
            },
{
    let s = stack(text, font, x, top, pitch, color);
    assert(0 * pitch == 0 && 1 * pitch == pitch) by (nonlinear_arith);
    assert(s[0] == line(font, seq![text[0]], x, top, color));
    assert(s[1] == line(font, seq![text[1]], x, top + pitch, color));
    assert(s[2] == line(font, seq![text[2]], x, top + 2 * pitch, color));
}

proof fn lemma_label_2(text: Seq<char>, font: Font, x: int, top: int, pitch: int, color: u16)
    requires
        text.len() == 2,
    ensures
        forall|d: Draw| #[trigger]
            stack(text, font, x, top, pitch, color).contains(d) <==> {
                ||| d == line(font, seq![text[0]], x, top, color)
                ||| d == line(font, seq![text[1]], x, top + pitch, color)
            },
{
    let s = stack(text, font, x, top, pitch, color);
    assert(0 * pitch == 0 && 1 * pitch == pitch) by (nonlinear_arith);
    assert(s[0] == line(font, seq![text[0]], x, top, color));
    assert(s[1] == line(font, seq![text[1]], x, top + pitch, color));
}

// ---- the disk page ----

/// Green below 80 percent, yellow below 90, red from there.
pub open spec fn light(q: int) -> u16 {
    if q < 80 {
        0x07e0
    } else if q < 90 {
        0xffe0
    } else {
        0xf800
    }
}

/// The disk page reads the percentage of the root filesystem that is used,
/// rounded down, with a percent sign, at twice its font's size and flush with
/// the right edge; over the gray track stands a bar for that share of its 88
/// pixels; below it, what is used over what there is. The rest of the page is
/// the label, the newest 122 disk operation rates as columns in proportion to
/// the largest of them, or to 50 where that is more, and the last rate.
#[verifier::rlimit(40)]
#[verifier::spinoff_prover]
pub proof fn law_disk_page(
    page: DiskPage,
    stats: Stats,
    q: int,
    filled: int,
    peak: int,
    d: Draw,
)
    requires
        0 <= q <= 255,
        stats.disk_total == 0 ==> q == 0,
        stats.disk_total > 0 ==> q * stats.disk_total <= stats.disk_used * 100 < (q + 1)
            * stats.disk_total,
        filled * 100 <= (if q <= 100 {
            q
        } else {
            100
        }) * 88 < (filled + 1) * 100,
        is_peak(page.data().iops, 122, 50, peak),
    ensures
        ({
            let iops = page.data().iops;
            let t = decimal(q as nat) + "%"@;
            let figures = gib_text(stats.disk_used as nat) + "/"@ + gib_text(stats.disk_total as nat);
            let rate = count_text(
                if iops.len() > 0 {
                    iops[iops.len() - 1] as nat
                } else {
                    0
                },
            );
            page.picture(&stats).contains(d) <==> {
                ||| is_enlarged(d, Font::Medium, t, 160 - 18 * t.len(), 0, 2, light(q))
                ||| d == rectangle(11, 4, 88, 8, 0x8410)
                ||| d == rectangle(11, 4, filled as nat, 8, light(q))
                ||| d == line(Font::Small, figures, 11, 16, 0xffff)
                ||| d == line(Font::Small, "G"@, 11int + 6 * figures.len(), 16, 0x8410)
                ||| d == line(Font::Medium, seq!['D'], 0, 0, 0xffff)
                ||| d == line(Font::Medium, seq!['I'], 0, 15, 0xffff)
                ||| d == line(Font::Medium, seq!['S'], 0, 30, 0xffff)
                ||| d == line(Font::Medium, seq!['K'], 0, 45, 0xffff)
                ||| is_count(d, iops, 122, 133, 58, true, 26, peak, 0x565f)
                ||| d == line_to(Font::Small, 6, rate, 160, 41, 0x565f)
                ||| d == line_to(Font::Small, 6, "iops"@, 160, 51, 0x8410)
            }
        }),
{
    let (used, total) = (stats.disk_used as int, stats.disk_total as int);
    if total > 0 {
        crate::laws::figures::law_percentages_are_shares(q, used, total);
    }
    assert(stats.disk_percentage() == q);
    let p = q as u8;
    let iops = page.data().iops;
    let t = decimal(q as nat) + "%"@;
    let figures = gib_text(stats.disk_used as nat) + "/"@ + gib_text(stats.disk_total as nat);
    crate::pages::lemma_byte_text(p);
    assert(t == crate::pages::percent_text(p));
    law_enlarged_text_is_the_text(t, Font::Medium, 160 - 18 * t.len(), 0, 2, light(q), d);
    reveal_strlit("DISK");
    assert(vertical_label("DISK"@, Font::Medium) == stack("DISK"@, Font::Medium, 0, 0, 15, 0xffff));
    lemma_label_4("DISK"@, Font::Medium, 0, 0, 15, 0xffff);
    let g = Graph { x: 11, y: 32, width: 122, height: 26 };
    law_count_graphs_show_the_newest(iops, g, 50, 0x565f, peak);
    let upper = vertical_label("DISK"@, Font::Medium);
    let middle = seq![
        rectangle(11, 4, 88, 8, 0x8410),
        rectangle(11, 4, filled as nat, 8, light(q)),
        line(Font::Small, figures, 11, 16, 0xffff),
        line(Font::Small, "G"@, 11int + 6 * figures.len(), 16, 0x8410),
    ];
    assert(middle[0] == rectangle(11, 4, 88, 8, 0x8410));
    assert(middle[1] == rectangle(11, 4, filled as nat, 8, light(q)));
    assert(middle[2] == line(Font::Small, figures, 11, 16, 0xffff));
    assert(middle[3] == line(Font::Small, "G"@, 11int + 6 * figures.len(), 16, 0x8410));
    let big = scaled_text(t, Font::Medium, 160 - 18 * t.len(), 0, 2, light(q));
    assert(crate::pages::fullness_picture(stats.disk_used, stats.disk_total) =~= upper + middle + big);
    lemma_in_both(upper, middle);
    lemma_in_both(upper + middle, big);
    let columns = sparkline_scaled(iops, g, 50, 0x565f);
    let rate = count_text(
        if iops.len() > 0 {
            iops[iops.len() - 1] as nat
        } else {
            0
        },
    );
    let last = seq![
        line_to(Font::Small, 6, rate, 160, 41, 0x565f),
        line_to(Font::Small, 6, "iops"@, 160, 51, 0x8410),
    ];
    assert(last[0] == line_to(Font::Small, 6, rate, 160, 41, 0x565f));
    assert(last[1] == line_to(Font::Small, 6, "iops"@, 160, 51, 0x8410));
    assert(crate::pages::iops_picture(iops) =~= columns + last);
    lemma_in_both(columns, last);
    lemma_in_both(upper + middle + big, columns + last);
}

// ---- the single-stat screens ----

/// A segment of the gauge for a percentage: lit once the percentage has
/// reached its end, gray before.
pub open spec fn segment(s: int, value: int, color: u16) -> Draw {
    rectangle(
        30 + 10 * s,
        35,
        6,
        10,
        if 10 * s + 10 <= value {
            color
        } else {
            0x8410
        },
    )
}

/// Whether an operation is one of the ten segments of the gauge, which stand
/// side by side.
pub open spec fn is_segment(d: Draw, value: int, color: u16) -> bool {
    exists|s: int|
        0 <= s < 10 && d == #[trigger] segment(s, value, color)
}

/// Whether an operation stands on the screen of a single reading: its label,
/// the reading up to column 115 with the unit behind it, and the gauge.
pub open spec fn is_stat(
    d: Draw,
    label: Seq<char>,
    value: int,
    unit: Seq<char>,
    color: u16,
) -> bool {
    ||| d == line(Font::LargeLatin, label, 30, 10, 0xffff)
    ||| d == line_to(Font::LargeLatin, 10, decimal(value as nat), 115, 10, 0xffff)
    ||| d == line(Font::LargeLatin, unit, 115, 10, 0xffff)
    ||| is_segment(d, value, color)
}

proof fn lemma_stat(label: Seq<char>, value: u8, unit: Seq<char>, color: u16, d: Draw)
    ensures
        crate::pages::stat_screen(label, value, unit, color).contains(d) <==> is_stat(
            d,
            label,
            value as int,
            unit,
            color,
        ),
{
    let a = value_line(label, value, unit);
    let b = gauge(value, color);
    lemma_in_both(a, b);
    assert(a[0] == line(Font::LargeLatin, label, 30, 10, 0xffff));
    assert(a[1] == line_to(Font::LargeLatin, 10, decimal(value as nat), 115, 10, 0xffff));
    assert(a[2] == line(Font::LargeLatin, unit, 115, 10, 0xffff));
    assert forall|s: int| 0 <= s < 10 implies #[trigger] b[s] == segment(s, value as int, color) by {}
    if b.contains(d) {
        let s = choose|s: int| 0 <= s < b.len() && b[s] == d;
        assert(d == segment(s, value as int, color));
    }
    if is_segment(d, value as int, color) {
        let s = choose|s: int|
            0 <= s < 10 && d == #[trigger] segment(s, value as int, color);
        assert(b[s] == d);
    }
}

/// Each single-stat screen shows its own reading: the processor's usage, the
/// memory in use, the processor's temperature, the fullness of the disk.
pub proof fn law_stat_screens(stats: Stats, d: Draw)
    ensures
        CpuScreen.picture(&stats).contains(d) <==> is_stat(
            d,
            "CPU:"@,
            stats.cpu as int,
            "%"@,
            0x07e0,
        ),
        RamScreen.picture(&stats).contains(d) <==> is_stat(
            d,
            "RAM:"@,
            stats.memory_percentage() as int,
            "%"@,
            0xffe0,
        ),
        TempScreen.picture(&stats).contains(d) <==> is_stat(
            d,
            "TEMP:"@,
            soc_temperature(lower_views(stats.components@)) as int,
            "C"@,
            0xf800,
        ),
        DiskScreen.picture(&stats).contains(d) <==> is_stat(
            d,
            "DISK:"@,
            stats.disk_percentage() as int,
            "%"@,
            0x001f,
        ),
{
    lemma_stat("CPU:"@, stats.cpu, "%"@, 0x07e0, d);
    lemma_stat("RAM:"@, stats.memory_percentage(), "%"@, 0xffe0, d);
    lemma_stat("TEMP:"@, soc_temperature(lower_views(stats.components@)), "C"@, 0xf800, d);
    lemma_stat("DISK:"@, stats.disk_percentage(), "%"@, 0x001f, d);
}

// ---- the per-core page ----

/// The newest sample of a series, or zero.
pub open spec fn newest(s: Seq<u8>) -> u8 {
    if s.len() > 0 {
        s[s.len() - 1]
    } else {
        0
    }
}

/// Whether an operation belongs to the row of the per-core page at `y`: its
/// label, the columns of its newest 118 samples, and the last of them as a
/// percentage in its color.
pub open spec fn is_cpu_row(d: Draw, label: Seq<char>, s: Seq<u8>, y: int) -> bool {
    ||| d == line(Font::Small, label, 0, y, 0xffff)
    ||| is_spark(d, s, Graph { x: 15, y: y as i32, width: 118, height: 10 }, Palette::Load)
    ||| d == line_to(
        Font::Small,
        6,
        decimal(newest(s) as nat) + "%"@,
        160,
        y,
        load_color(newest(s) as int),
    )
}

proof fn lemma_cpu_row(label: Seq<char>, s: Seq<u8>, y: int, d: Draw)
    ensures
        crate::pages::cpu_row(label, s, y).contains(d) <==> is_cpu_row(d, label, s, y),
{
    let g = Graph { x: 15, y: y as i32, width: 118, height: 10 };
    let a = seq![line(Font::Small, label, 0, y, 0xffff)];
    let b = sparkline(s, g, Palette::Load);
    let t = line_to(
        Font::Small,
        6,
        decimal(newest(s) as nat) + "%"@,
        160,
        y,
        load_color(newest(s) as int),
    );
    let c = seq![t];
    assert(crate::pages::cpu_row(label, s, y) =~= a + b + c);
    law_sparklines_show_the_newest(s, g, Palette::Load);
    lemma_in_one(line(Font::Small, label, 0, y, 0xffff));
    lemma_in_one(t);
    lemma_in_both(a, b);
    lemma_in_both(a + b, c);
}

proof fn lemma_core_rows(cores: Seq<Seq<u8>>, n: nat, d: Draw)
    requires
        n <= cores.len(),
    ensures
        crate::pages::core_rows(cores, n).contains(d) <==> exists|r: int|
            0 <= r < n && is_cpu_row(d, "C"@ + decimal(r as nat), #[trigger] cores[r], 12 * (r + 1)),
    decreases n,
{
    if n > 0 {
        let m = (n - 1) as nat;
        let rest = crate::pages::core_rows(cores, m);
        let last = crate::pages::cpu_row("C"@ + decimal(m), cores[n - 1], 12 * (m + 1int));
        lemma_core_rows(cores, m, d);
        lemma_cpu_row("C"@ + decimal(m), cores[n - 1], 12 * (m + 1int), d);
        lemma_in_both(rest, last);
        if rest.contains(d) {
            let r = choose|r: int|
                0 <= r < m && is_cpu_row(
                    d,
                    "C"@ + decimal(r as nat),
                    #[trigger] cores[r],
                    12 * (r + 1),
                );
            assert(is_cpu_row(d, "C"@ + decimal(r as nat), cores[r], 12 * (r + 1)));
        }
        if last.contains(d) {
            assert(is_cpu_row(d, "C"@ + decimal((n - 1) as nat), cores[n - 1], 12 * (n - 1 + 1)));
        }
    }
}

/// The per-core page has a row for all cores together on top and one for each
/// of the first four cores below, in order, each under its own name.
pub proof fn law_cpus_page(page: CpusPage, stats: Stats, d: Draw)
    ensures
        page.picture(&stats).contains(d) <==> {
            ||| is_cpu_row(d, "C*"@, page.data().total, 0)
            ||| exists|r: int|
                0 <= r < 4 && r < page.data().cores.len() && is_cpu_row(
                    d,
                    "C"@ + decimal(r as nat),
                    #[trigger] page.data().cores[r],
                    12 * (r + 1),
                )
        },
{
    let cores = page.data().cores;
    let n = crate::pages::cores_shown(cores.len());
    let top = crate::pages::cpu_row("C*"@, page.data().total, 0);
    lemma_cpu_row("C*"@, page.data().total, 0, d);
    lemma_core_rows(cores, n, d);
    lemma_in_both(top, crate::pages::core_rows(cores, n));
    if exists|r: int|
        0 <= r < 4 && r < cores.len() && is_cpu_row(
            d,
            "C"@ + decimal(r as nat),
            #[trigger] cores[r],
            12 * (r + 1),
        ) {
        let r = choose|r: int|
            0 <= r < 4 && r < cores.len() && is_cpu_row(
                d,
                "C"@ + decimal(r as nat),
                #[trigger] cores[r],
                12 * (r + 1),
            );
        assert(0 <= r < n && is_cpu_row(d, "C"@ + decimal(r as nat), cores[r], 12 * (r + 1)));
    }
}

// ---- the temperatures page ----

/// The reading that a sensor's row shows: what its own sensor reads now, or
/// its newest sample where that is missing.
pub open spec fn reading_of(s: (Seq<char>, Seq<u8>), cpu: Option<u8>, nvme: Option<u8>) -> u8 {
    let now = if s.0 == "CPU"@ {
        cpu
    } else {
        nvme
    };
    if now is Some {
        now->0
    } else {
        newest(s.1)
    }
}

/// Whether an operation belongs to a sensor's row at `y`: its label, the
/// columns of its newest 82 samples, and the reading in degrees, in its color
/// and in the large font, flush with the right edge.
pub open spec fn is_temp_row(d: Draw, s: (Seq<char>, Seq<u8>), t: u8, y: int) -> bool {
    ||| d == line(Font::Small, s.0, 0, y + 10, 0xffff)
    ||| is_spark(d, s.1, Graph { x: 26, y: (y + 3) as i32, width: 82, height: 24 }, Palette::Heat)
    ||| d == line_to(
        Font::LargeLatin,
        10,
        decimal(t as nat) + "\u{b0}"@,
        160,
        y + 5,
        heat_color(t as int),
    )
}

proof fn lemma_temp_row(s: (Seq<char>, Seq<u8>), t: u8, y: int, d: Draw)
    ensures
        crate::pages::temp_row(s, t, y).contains(d) <==> is_temp_row(d, s, t, y),
{
    let g = Graph { x: 26, y: (y + 3) as i32, width: 82, height: 24 };
    let label = line(Font::Small, s.0, 0, y + 10, 0xffff);
    let a = seq![label];
    let b = sparkline(s.1, g, Palette::Heat);
    let r = line_to(
        Font::LargeLatin,
        10,
        decimal(t as nat) + "\u{b0}"@,
        160,
        y + 5,
        heat_color(t as int),
    );
    let c = seq![r];
    assert(crate::pages::temp_row(s, t, y) =~= a + b + c);
    law_sparklines_show_the_newest(s.1, g, Palette::Heat);
    lemma_in_one(label);
    lemma_in_one(r);
    lemma_in_both(a, b);
    lemma_in_both(a + b, c);
}

proof fn lemma_temp_rows(
    temps: Seq<(Seq<char>, Seq<u8>)>,
    cpu: Option<u8>,
    nvme: Option<u8>,
    n: nat,
    d: Draw,
)
    requires
        n <= temps.len(),
    ensures
        crate::pages::temp_rows(temps, cpu, nvme, n).contains(d) <==> exists|r: int|
            0 <= r < n && is_temp_row(
                d,
                #[trigger] temps[r],
                reading_of(temps[r], cpu, nvme),
                30 * r,
            ),
    decreases n,
{
    if n > 0 {
        let m = (n - 1) as nat;
        let rest = crate::pages::temp_rows(temps, cpu, nvme, m);
        let t = reading_of(temps[n - 1], cpu, nvme);
        let last = crate::pages::temp_row(temps[n - 1], t, 30 * (n - 1));
        lemma_temp_rows(temps, cpu, nvme, m, d);
        lemma_temp_row(temps[n - 1], t, 30 * (n - 1), d);
        lemma_in_both(rest, last);
        assert(crate::pages::temp_rows(temps, cpu, nvme, n) == rest + last);
        if rest.contains(d) {
            let r = choose|r: int|
                0 <= r < m && is_temp_row(
                    d,
                    #[trigger] temps[r],
                    reading_of(temps[r], cpu, nvme),
                    30 * r,
                );
            assert(is_temp_row(d, temps[r], reading_of(temps[r], cpu, nvme), 30 * r));
        }
        if last.contains(d) {
            assert(is_temp_row(d, temps[n - 1], t, 30 * (n - 1)));
        }
    }
}

/// The temperatures page has one row for each of the first two sensors, with
/// the sensor's own reading; without sensors it says so.
pub proof fn law_temps_page(page: TempsPage, stats: Stats, d: Draw)
    ensures
        page.data().temps.len() == 0 ==> (page.picture(&stats).contains(d) <==> d == line(
            Font::Small,
            "no temp sensors"@,
            0,
            10,
            0xffff,
        )),
        page.data().temps.len() > 0 ==> (page.picture(&stats).contains(d) <==> exists|r: int|
            0 <= r < 2 && r < page.data().temps.len() && is_temp_row(
                d,
                #[trigger] page.data().temps[r],
                reading_of(page.data().temps[r], stats.temps().0, stats.temps().1),
                30 * r,
            )),
{
    let temps = page.data().temps;
    let (cpu, nvme) = stats.temps();
    lemma_in_one(line(Font::Small, "no temp sensors"@, 0, 10, 0xffff));
    if temps.len() > 0 {
        let n: nat = if temps.len() <= 2 {
            temps.len()
        } else {
            2
        };
        lemma_temp_rows(temps, cpu, nvme, n, d);
        if exists|r: int|
            0 <= r < 2 && r < temps.len() && is_temp_row(
                d,
                #[trigger] temps[r],
                reading_of(temps[r], cpu, nvme),
                30 * r,
            ) {
            let r = choose|r: int|
                0 <= r < 2 && r < temps.len() && is_temp_row(
                    d,
                    #[trigger] temps[r],
                    reading_of(temps[r], cpu, nvme),
                    30 * r,
                );
            assert(0 <= r < n && is_temp_row(d, temps[r], reading_of(temps[r], cpu, nvme), 30 * r));
        }
    }
}

// ---- the memory page ----

/// The memory page shows the newest 105 samples, the percentage in use,
/// rounded down and in its color, and what is used over what there is.
#[verifier::rlimit(40)]
#[verifier::spinoff_prover]
pub proof fn law_mem_page(page: MemPage, stats: Stats, q: int, d: Draw)
    requires
        0 <= q <= 255,
        stats.mem_total == 0 ==> q == 0,
        stats.mem_total > 0 ==> q * stats.mem_total <= stats.mem_used * 100 < (q + 1)
            * stats.mem_total,
    ensures
        page.picture(&stats).contains(d) <==> {
            ||| d == line(Font::LargeLatin, seq!['R'], 0, 0, 0xffff)
            ||| d == line(Font::LargeLatin, seq!['A'], 0, 20, 0xffff)
            ||| d == line(Font::LargeLatin, seq!['M'], 0, 40, 0xffff)
            ||| is_spark(
                d,
                page.data().mem,
                Graph { x: 12, y: 4, width: 105, height: 52 },
                Palette::Load,
            )
            ||| d == line_to(
                Font::LargeLatin,
                10,
                decimal(q as nat) + "%"@,
                160,
                8,
                load_color(q),
            )
            ||| d == line_to(Font::Medium, 9, gib_text(stats.mem_used as nat), 152, 30, 0xffff)
            ||| d == line_to(Font::Medium, 9, gib_text(stats.mem_total as nat), 152, 45, 0xa514)
            ||| d == line(Font::Small, "G"@, 154, 32, 0x8410)
            ||| d == line(Font::Small, "B"@, 154, 44, 0x8410)
        },
{
    if stats.mem_total > 0 {
        crate::laws::figures::law_percentages_are_shares(
            q,
            stats.mem_used as int,
            stats.mem_total as int,
        );
    }
    let g = Graph { x: 12, y: 4, width: 105, height: 52 };
    reveal_strlit("RAM");
    let a = vertical_label("RAM"@, Font::LargeLatin);
    assert(a == stack("RAM"@, Font::LargeLatin, 0, 0, 20, 0xffff));
    lemma_label_3("RAM"@, Font::LargeLatin, 0, 0, 20, 0xffff);
    let b = sparkline(page.data().mem, g, Palette::Load);
    law_sparklines_show_the_newest(page.data().mem, g, Palette::Load);
    let c = seq![
        line_to(Font::LargeLatin, 10, decimal(q as nat) + "%"@, 160, 8, load_color(q)),
        line_to(Font::Medium, 9, gib_text(stats.mem_used as nat), 152, 30, 0xffff),
        line_to(Font::Medium, 9, gib_text(stats.mem_total as nat), 152, 45, 0xa514),
        line(Font::Small, "G"@, 154, 32, 0x8410),
        line(Font::Small, "B"@, 154, 44, 0x8410),
    ];
    assert(c[0] == line_to(Font::LargeLatin, 10, decimal(q as nat) + "%"@, 160, 8, load_color(q)));
    assert(c[1] == line_to(Font::Medium, 9, gib_text(stats.mem_used as nat), 152, 30, 0xffff));
    assert(c[2] == line_to(Font::Medium, 9, gib_text(stats.mem_total as nat), 152, 45, 0xa514));
    assert(c[3] == line(Font::Small, "G"@, 154, 32, 0x8410));
    assert(c[4] == line(Font::Small, "B"@, 154, 44, 0x8410));
    assert(page.picture(&stats) =~= a + b + c);
    lemma_in_both(a, b);
    lemma_in_both(a + b, c);
}

// ---- the network page ----

/// The newest sample of a series of counts, or zero.
pub open spec fn newest_count(s: Seq<u32>) -> nat {
    if s.len() > 0 {
        s[s.len() - 1] as nat
    } else {
        0
    }
}

/// The network page shows, on either side of its middle row, the newest 124
/// samples of one direction: what comes in above it, in light blue, and what
/// goes out below it, in magenta, each in proportion to its own peak. Beside
/// them stand the labels and the last rate of either direction.
#[verifier::rlimit(40)]
#[verifier::spinoff_prover]
pub proof fn law_net_page(
    page: NetPage,
    stats: Stats,
    rx_peak: int,
    tx_peak: int,
    d: Draw,
)
    requires
        is_peak(page.data().net_rx, 124, 10_000, rx_peak),
        is_peak(page.data().net_tx, 124, 10_000, tx_peak),
    ensures
        ({
            let (rx, tx) = (page.data().net_rx, page.data().net_tx);
            let (i, o) = (rate_text(newest_count(rx)), rate_text(newest_count(tx)));
            page.picture(&stats).contains(d) <==> {
                ||| d == rectangle(8, 30, 124, 1, 0x8410)
                ||| is_count(d, rx, 124, 132, 30, true, 30, rx_peak, 0x565f)
                ||| is_count(d, tx, 124, 132, 30, false, 30, tx_peak, 0xe218)
                ||| d == line(Font::Small, seq!['I'], 0, 5, 0x565f)
                ||| d == line(Font::Small, seq!['N'], 0, 15, 0x565f)
                ||| d == line_to(Font::Small, 6, i.0, 160, 8, 0x565f)
                ||| d == line_to(Font::Small, 6, i.1, 160, 18, 0x8410)
                ||| d == line(Font::Small, seq!['O'], 0, 31, 0xe218)
                ||| d == line(Font::Small, seq!['U'], 0, 41, 0xe218)
                ||| d == line(Font::Small, seq!['T'], 0, 51, 0xe218)
                ||| d == line_to(Font::Small, 6, o.0, 160, 34, 0xe218)
                ||| d == line_to(Font::Small, 6, o.1, 160, 44, 0x8410)
            }
        }),
{
    let (rx, tx) = (page.data().net_rx, page.data().net_tx);
    let (i, o) = (rate_text(newest_count(rx)), rate_text(newest_count(tx)));
    let a = seq![rectangle(8, 30, 124, 1, 0x8410)];
    lemma_in_one(rectangle(8, 30, 124, 1, 0x8410));
    let b = net_half(rx, 30, true, 30, 0x565f);
    let c = net_half(tx, 30, false, 30, 0xe218);
    law_network_graph_shows_the_newest(rx, 30, true, 30, 0x565f, rx_peak);
    law_network_graph_shows_the_newest(tx, 30, false, 30, 0xe218, tx_peak);
    reveal_strlit("IN");
    reveal_strlit("OUT");
    let e = stack("IN"@, Font::Small, 0, 5, 10, 0x565f);
    lemma_label_2("IN"@, Font::Small, 0, 5, 10, 0x565f);
    let f = seq![
        line_to(Font::Small, 6, i.0, 160, 8, 0x565f),
        line_to(Font::Small, 6, i.1, 160, 18, 0x8410),
    ];
    assert(f[0] == line_to(Font::Small, 6, i.0, 160, 8, 0x565f));
    assert(f[1] == line_to(Font::Small, 6, i.1, 160, 18, 0x8410));
    let g = stack("OUT"@, Font::Small, 0, 31, 10, 0xe218);
    lemma_label_3("OUT"@, Font::Small, 0, 31, 10, 0xe218);
    let h = seq![
        line_to(Font::Small, 6, o.0, 160, 34, 0xe218),
        line_to(Font::Small, 6, o.1, 160, 44, 0x8410),
    ];
    assert(h[0] == line_to(Font::Small, 6, o.0, 160, 34, 0xe218));
    assert(h[1] == line_to(Font::Small, 6, o.1, 160, 44, 0x8410));
    assert(page.picture(&stats) =~= a + b + c + (e + f) + (g + h));
    lemma_in_both(a, b);
    lemma_in_both(a + b, c);
    lemma_in_both(e, f);
    lemma_in_both(g, h);
    lemma_in_both(a + b + c, e + f);
    lemma_in_both(a + b + c + (e + f), g + h);
}

// ---- the proxmox page ----

/// The proxmox page shows how many guests run of how many are defined, or that
/// this is no such host; how long the host is up; and the newest 118 load
/// samples with the current load, in the color of the last of them.
#[verifier::rlimit(40)]
#[verifier::spinoff_prover]
pub proof fn law_proxmox_page(page: ProxmoxPage, stats: Stats, d: Draw)
    ensures
        ({
            let up = crate::host::uptime(page.up() as nat);
            let load = page.data().load;
            page.picture(&stats).contains(d) <==> {
                ||| page.guests() is None && d == line(Font::Small, "not a pve host"@, 0, 8, 0x8410)
                ||| page.guests() is Some && {
                    ||| d == line(Font::Small, seq!['V'], 0, 2, 0xffff)
                    ||| d == line(Font::Small, seq!['M'], 0, 12, 0xffff)
                    ||| d == line(
                        Font::LargeLatin,
                        decimal(page.guests()->0.running as nat) + "/"@ + decimal(
                            page.guests()->0.total as nat,
                        ),
                        10,
                        2,
                        0xffff,
                    )
                }
                ||| d == line_to(Font::LargeLatin, 10, up, 152, 2, 0xffff)
                ||| d == line(Font::Small, seq!['U'], 154, 2, 0xffff)
                ||| d == line(Font::Small, seq!['P'], 154, 12, 0xffff)
                ||| d == line(Font::Tiny, seq!['L'], 0, 32, 0xffff)
                ||| d == line(Font::Tiny, seq!['O'], 0, 39, 0xffff)
                ||| d == line(Font::Tiny, seq!['A'], 0, 46, 0xffff)
                ||| d == line(Font::Tiny, seq!['D'], 0, 53, 0xffff)
                ||| is_spark(
                    d,
                    load,
                    Graph { x: 8, y: 32, width: 118, height: 26 },
                    Palette::Load,
                )
                ||| d == line_to(
                    Font::Small,
                    6,
                    page.load(),
                    160,
                    40,
                    load_color(newest(load) as int),
                )
            }
        }),
{
    let load = page.data().load;
    let guests = page.guests();
    let a = crate::pages::guests_picture(guests);
    reveal_strlit("VM");
    reveal_strlit("UP");
    reveal_strlit("LOAD");
    lemma_in_one(line(Font::Small, "not a pve host"@, 0, 8, 0x8410));
    lemma_label_2("VM"@, Font::Small, 0, 2, 10, 0xffff);
    if guests is Some {
        let t = line(
            Font::LargeLatin,
            decimal(guests->0.running as nat) + "/"@ + decimal(guests->0.total as nat),
            10,
            2,
            0xffff,
        );
        lemma_in_push(stack("VM"@, Font::Small, 0, 2, 10, 0xffff), t);
        assert(a == stack("VM"@, Font::Small, 0, 2, 10, 0xffff).push(t));
    }
    let up = line_to(
        Font::LargeLatin,
        10,
        crate::host::uptime(page.up() as nat),
        152,
        2,
        0xffff,
    );
    let b = seq![up];
    lemma_in_one(up);
    let c = stack("UP"@, Font::Small, 154, 2, 10, 0xffff);
    lemma_label_2("UP"@, Font::Small, 154, 2, 10, 0xffff);
    let e = stack("LOAD"@, Font::Tiny, 0, 32, 7, 0xffff);
    lemma_label_4("LOAD"@, Font::Tiny, 0, 32, 7, 0xffff);
    let g = Graph { x: 8, y: 32, width: 118, height: 26 };
    let f = sparkline(load, g, Palette::Load);
    law_sparklines_show_the_newest(load, g, Palette::Load);
    let now = line_to(Font::Small, 6, page.load(), 160, 40, load_color(newest(load) as int));
    let h = seq![now];
    lemma_in_one(now);
    assert(page.picture(&stats) =~= a + b + c + (e + f + h));
    lemma_in_both(a, b);
    lemma_in_both(a + b, c);
    lemma_in_both(e, f);
    lemma_in_both(e + f, h);
    lemma_in_both(a + b + c, e + f + h);
}

// ---- the warnings page ----

/// The warnings page shows the first six problems of the host, one line each
/// from the top, red where severe and yellow otherwise; without problems it
/// says so.
pub proof fn law_warnings_page(stats: Stats, i: int)
    ensures
        stats.problems().len() == 0 ==> WarningsPage.picture(&stats) == seq![
            line(Font::Small, "all clear"@, 0, 26, 0x8410),
        ],
        0 < stats.problems().len() <= 6 ==> WarningsPage.picture(&stats).len()
            == stats.problems().len(),
        stats.problems().len() > 6 ==> WarningsPage.picture(&stats).len() == 6,
        0 <= i < 6 && i < stats.problems().len() ==> WarningsPage.picture(&stats)[i] == line(
            Font::Small,
            stats.problems()[i].0,
            0,
            10 * i,
            if stats.problems()[i].1 {
                0xf800
            } else {
                0xffe0
            },
        ),
{
}

// ---- the pages by their kind ----

/// The page of each kind is the page that its name says.
pub proof fn law_pages_of_their_kind(
    stats: Stats,
    node: Node,
    cpus: CpusPage,
    temps: TempsPage,
    mem: MemPage,
    disk: DiskPage,
    net: NetPage,
    proxmox: ProxmoxPage,
    h: HistoryView,
)
    requires
        cpus.data() == h,
        temps.data() == h,
        mem.data() == h,
        disk.data() == h,
        net.data() == h,
        proxmox.data() == h,
        proxmox.guests() == node.vms,
        proxmox.up() == node.uptime_secs,
        proxmox.load() == node.load_text@,
    ensures
        picture_of(PageKind::Cpus, &stats, h, node) == cpus.picture(&stats),
        picture_of(PageKind::Temps, &stats, h, node) == temps.picture(&stats),
        picture_of(PageKind::Mem, &stats, h, node) == mem.picture(&stats),
        picture_of(PageKind::Disk, &stats, h, node) == disk.picture(&stats),
        picture_of(PageKind::Network, &stats, h, node) == net.picture(&stats),
        picture_of(PageKind::Proxmox, &stats, h, node) == proxmox.picture(&stats),
        picture_of(PageKind::Warnings, &stats, h, node) == WarningsPage.picture(&stats),
        picture_of(PageKind::UctronicsCpu, &stats, h, node) == CpuScreen.picture(&stats),
        picture_of(PageKind::UctronicsRam, &stats, h, node) == RamScreen.picture(&stats),
        picture_of(PageKind::UctronicsTemp, &stats, h, node) == TempScreen.picture(&stats),
        picture_of(PageKind::UctronicsDisk, &stats, h, node) == DiskScreen.picture(&stats),
{
}

/// Every page but the one with the warnings always wants to show.
pub proof fn law_pages_want_to_show(
    stats: Stats,
    cpus: CpusPage,
    temps: TempsPage,
    mem: MemPage,
    disk: DiskPage,
    net: NetPage,
    proxmox: ProxmoxPage,
)
    ensures
        cpus.wanted(&stats),
        temps.wanted(&stats),
        mem.wanted(&stats),
        disk.wanted(&stats),
        net.wanted(&stats),
        proxmox.wanted(&stats),
        CpuScreen.wanted(&stats),
        RamScreen.wanted(&stats),
        TempScreen.wanted(&stats),
        DiskScreen.wanted(&stats),
        WarningsPage.wanted(&stats) <==> stats.problems().len() > 0,
{
}

} // verus!
