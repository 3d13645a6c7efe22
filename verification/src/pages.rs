//! The pages of the rotation. Each turns the host's readings and history into
//! drawing operations, in page coordinates from (0, 0).

use std::collections::VecDeque;

use vstd::prelude::*;

use crate::color::{
    heat_color, load_color, temp_color, usage_color, BLUE, DIM, GRAY, GREEN, LIGHT_BLUE, MAGENTA,
    RED, WHITE, YELLOW,
};
use crate::font::{lemma_text_fits, text_width, width_of, Font};
use crate::framebuffer::{draws, Draw, Op};
use crate::history::{
    percent, percent_of, temp_sample, History, HistoryView, TempSeries, GRAPH_WIDTH,
    IO_GRAPH_WIDTH, MEM_GRAPH_WIDTH, NET_GRAPH_WIDTH, TEMP_GRAPH_WIDTH,
};
use crate::host::{uptime, uptime_text, GuestCounts};
use crate::layout::{
    add_fill, add_right, add_text, all_near, draw_gauge, draw_net_half, draw_scaled_text,
    draw_sparkline, draw_sparkline_scaled, draw_stack, draw_value_line, draw_vertical_label, gauge,
    lemma_decimal_short, lemma_short_near, lemma_short_right, net_half, right_aligned, scaled_text,
    sparkline, sparkline_scaled, stack, value_line, vertical_label, Graph, Palette, Scaling,
    NET_GRAPH_X,
};
use crate::numbers::{
    count_text, decimal, decimal_text, double_quotient, format_count, format_gib, format_rate,
    gib_text, nearest, rate_text,
};
use crate::panel::{PAGE_HEIGHT, WIDTH};
use crate::rotation::PageKind;
use crate::stats::{lower_views, soc_temperature, warning_views, Stats, Warning};
use crate::text::{chars_of, same_text};

verus! {

broadcast use {lemma_short_near, lemma_short_right};

// ---- what a page is ----

/// One page. It renders its whole area from current data; what has not
/// changed costs nothing on the bus.
pub trait Page {
    /// Whether the page's own texts are short enough to draw.
    spec fn ready(&self) -> bool;

    /// What the page draws for the given readings.
    spec fn picture(&self, stats: &Stats) -> Seq<Draw>;

    /// Whether the rotation should show the page for the given readings.
    spec fn wanted(&self, stats: &Stats) -> bool;

    /// The page's drawing operations.
    fn render(&self, stats: &Stats) -> (ops: Vec<Op>)
        requires
            self.ready(),
            stats.wf(),
        ensures
            draws(ops@) == self.picture(stats),
            all_near(draws(ops@)),
    ;

    /// Whether the rotation should show the page right now.
    fn active(&self, stats: &Stats) -> (r: bool)
        requires
            stats.wf(),
        ensures
            r == self.wanted(stats),
    ;
}

/// Whether a text can be drawn as a line of a page in the small font.
pub open spec fn fits_line(text: Seq<char>) -> bool {
    (Draw::Text { font: Font::Small, text, x: 0, y: PAGE_HEIGHT as int, color: WHITE }).near()
}

/// The last sample of a series, or zero.
pub open spec fn latest(s: Seq<u8>) -> u8 {
    if s.len() > 0 {
        s.last()
    } else {
        0
    }
}

/// The last count of a series, or zero.
pub open spec fn latest_count(s: Seq<u32>) -> u32 {
    if s.len() > 0 {
        s.last()
    } else {
        0
    }
}

fn latest_of(s: &VecDeque<u8>) -> (v: u8)
    ensures
        v == latest(s@),
{
    if s.len() > 0 {
        s[s.len() - 1]
    } else {
        0
    }
}

fn latest_count_of(s: &VecDeque<u32>) -> (v: u32)
    ensures
        v == latest_count(s@),
{
    if s.len() > 0 {
        s[s.len() - 1]
    } else {
        0
    }
}

/// A number with a percent sign.
pub open spec fn percent_text(p: u8) -> Seq<char> {
    decimal(p as nat) + "%"@
}

fn percent_string(p: u8) -> (s: String)
    ensures
        s@ == percent_text(p),
        2 <= s@.len() <= 21,
{
    proof {
        lemma_decimal_short(p as nat);
        reveal_strlit("%");
    }
    let mut s = decimal_text(p as u64);
    s.append("%");
    s
}

fn no_ops() -> (ops: Vec<Op>)
    ensures
        draws(ops@) == Seq::<Draw>::empty(),
        all_near(draws(ops@)),
{
    let ops: Vec<Op> = Vec::new();
    assert(draws(ops@) =~= Seq::<Draw>::empty());
    ops
}

// ---- the single-stat screens ----

/// Overall CPU usage with a gauge.
pub struct CpuScreen;

/// Memory usage with a gauge.
pub struct RamScreen;

/// Processor temperature with a gauge.
pub struct TempScreen;

/// Root filesystem fullness with a gauge.
pub struct DiskScreen;

/// A single-stat screen.
pub open spec fn stat_screen(label: Seq<char>, value: u8, unit: Seq<char>, color: u16) -> Seq<Draw> {
    value_line(label, value, unit) + gauge(value, color)
}

fn draw_stat_screen(label: &str, value: u8, unit: &str, color: u16) -> (ops: Vec<Op>)
    requires
        label@.len() <= 100,
        unit@.len() <= 100,
    ensures
        draws(ops@) == stat_screen(label@, value, unit@, color),
        all_near(draws(ops@)),
{
    let mut ops = no_ops();
    draw_value_line(&mut ops, label, value, unit);
    draw_gauge(&mut ops, value, color);
    assert(draws(ops@) =~= stat_screen(label@, value, unit@, color));
    ops
}

impl Page for CpuScreen {
    open spec fn ready(&self) -> bool {
        true
    }

    open spec fn picture(&self, stats: &Stats) -> Seq<Draw> {
        stat_screen("CPU:"@, stats.cpu, "%"@, GREEN)
    }

    open spec fn wanted(&self, stats: &Stats) -> bool {
        true
    }

    fn render(&self, stats: &Stats) -> (ops: Vec<Op>) {
        proof {
            reveal_strlit("CPU:");
            reveal_strlit("%");
        }
        draw_stat_screen("CPU:", stats.cpu_percent(), "%", GREEN)
    }

    fn active(&self, stats: &Stats) -> (r: bool) {
        true
    }
}

impl Page for RamScreen {
    open spec fn ready(&self) -> bool {
        true
    }

    open spec fn picture(&self, stats: &Stats) -> Seq<Draw> {
        stat_screen("RAM:"@, stats.memory_percentage(), "%"@, YELLOW)
    }

    open spec fn wanted(&self, stats: &Stats) -> bool {
        true
    }

    fn render(&self, stats: &Stats) -> (ops: Vec<Op>) {
        proof {
            reveal_strlit("RAM:");
            reveal_strlit("%");
        }
        draw_stat_screen("RAM:", stats.memory_percent(), "%", YELLOW)
    }

    fn active(&self, stats: &Stats) -> (r: bool) {
        true
    }
}

impl Page for TempScreen {
    open spec fn ready(&self) -> bool {
        true
    }

    open spec fn picture(&self, stats: &Stats) -> Seq<Draw> {
        stat_screen("TEMP:"@, soc_temperature(lower_views(stats.components@)), "C"@, RED)
    }

    open spec fn wanted(&self, stats: &Stats) -> bool {
        true
    }

    fn render(&self, stats: &Stats) -> (ops: Vec<Op>) {
        proof {
            reveal_strlit("TEMP:");
            reveal_strlit("C");
        }
        draw_stat_screen("TEMP:", stats.temperature_celsius(), "C", RED)
    }

    fn active(&self, stats: &Stats) -> (r: bool) {
        true
    }
}

impl Page for DiskScreen {
    open spec fn ready(&self) -> bool {
        true
    }

    open spec fn picture(&self, stats: &Stats) -> Seq<Draw> {
        stat_screen("DISK:"@, stats.disk_percentage(), "%"@, BLUE)
    }

    open spec fn wanted(&self, stats: &Stats) -> bool {
        true
    }

    fn render(&self, stats: &Stats) -> (ops: Vec<Op>) {
        proof {
            reveal_strlit("DISK:");
            reveal_strlit("%");
        }
        draw_stat_screen("DISK:", stats.disk_percent(), "%", BLUE)
    }

    fn active(&self, stats: &Stats) -> (r: bool) {
        true
    }
}

// ---- the per-core page ----

/// Rows between the tops of the rows of the per-core page.
pub const ROW_H: i32 = 12;

/// Left edge of the graphs of the per-core page.
pub const GRAPH_X: i32 = 15;

/// Cores that the per-core page has room for.
pub const CORE_ROWS: usize = 4;

/// The graph of the row at `y` of the per-core page.
pub open spec fn cpu_graph(y: int) -> Graph {
    Graph { x: GRAPH_X, y: y as i32, width: GRAPH_WIDTH, height: 10 }
}

/// A row of the per-core page: label, sparkline, current percentage.
pub open spec fn cpu_row(label: Seq<char>, s: Seq<u8>, y: int) -> Seq<Draw> {
    seq![Draw::Text { font: Font::Small, text: label, x: 0, y, color: WHITE }] + sparkline(
        s,
        cpu_graph(y),
        Palette::Load,
    ) + seq![
        right_aligned(
            Font::Small,
            percent_text(latest(s)),
            WIDTH as int,
            y,
            load_color(latest(s) as int),
        ),
    ]
}

/// The rows of the first `n` cores.
pub open spec fn core_rows(cores: Seq<Seq<u8>>, n: nat) -> Seq<Draw>
    decreases n,
{
    if n == 0 {
        Seq::empty()
    } else {
        core_rows(cores, (n - 1) as nat) + cpu_row(
            "C"@ + decimal((n - 1) as nat),
            cores[n - 1],
            n * ROW_H,
        )
    }
}

/// How many cores the page shows.
pub open spec fn cores_shown(n: nat) -> nat {
    if n <= CORE_ROWS {
        n
    } else {
        CORE_ROWS as nat
    }
}

/// What the per-core page draws.
pub open spec fn cpus_picture(total: Seq<u8>, cores: Seq<Seq<u8>>) -> Seq<Draw> {
    cpu_row("C*"@, total, 0) + core_rows(cores, cores_shown(cores.len()))
}

fn draw_cpu_row(ops: &mut Vec<Op>, label: &str, s: &VecDeque<u8>, y: i32)
    requires
        all_near(draws(old(ops)@)),
        label@.len() <= 100,
        0 <= y <= 100,
    ensures
        all_near(draws(final(ops)@)),
        draws(final(ops)@) == draws(old(ops)@) + cpu_row(label@, s@, y as int),
{
    let ghost was = draws(ops@);
    let now: u8 = latest_of(s);
    let text = percent_string(now);
    add_text(ops, Font::Small, label, 0, y, WHITE);
    draw_sparkline(
        ops,
        s,
        Graph { x: GRAPH_X, y, width: GRAPH_WIDTH, height: 10 },
        Palette::Load,
    );
    add_right(ops, Font::Small, text.as_str(), WIDTH as i32, y, usage_color(now));
    assert(draws(ops@) =~= was + cpu_row(label@, s@, y as int));
}

/// Per-core usage: a history of all cores together on top, then one row for
/// each of the first four cores.
pub struct CpusPage {
    history: History,
}

impl CpusPage {
    /// The history that the page shows.
    pub closed spec fn data(self) -> HistoryView {
        self.history@
    }

    /// A page about the given history.
    pub fn new(history: History) -> (p: Self)
        ensures
            p.data() == history@,
    {
        CpusPage { history }
    }
}

impl Page for CpusPage {
    open spec fn ready(&self) -> bool {
        true
    }

    open spec fn picture(&self, stats: &Stats) -> Seq<Draw> {
        cpus_picture(self.data().total, self.data().cores)
    }

    open spec fn wanted(&self, stats: &Stats) -> bool {
        true
    }

    fn render(&self, stats: &Stats) -> (ops: Vec<Op>) {
        let h = &self.history;
        let ghost v = self.data();
        let mut ops = no_ops();
        proof {
            reveal_strlit("C*");
            reveal_strlit("C");
        }
        draw_cpu_row(&mut ops, "C*", &h.total, 0);
        let ghost top = cpu_row("C*"@, v.total, 0);
        assert(draws(ops@) =~= top + core_rows(v.cores, 0));
        let n: usize = if h.cores.len() <= CORE_ROWS {
            h.cores.len()
        } else {
            CORE_ROWS
        };
        let mut i: usize = 0;
        while i < n
            invariant
                v == self.data(),
                h@ == v,
                n <= h.cores@.len(),
                n <= CORE_ROWS,
                i <= n,
                "C"@.len() == 1,
                all_near(draws(ops@)),
                draws(ops@) == top + core_rows(v.cores, i as nat),
            decreases n - i,
        {
            let mut label = "C".to_owned();
            let number = decimal_text(i as u64);
            proof {
                lemma_decimal_short(i as nat);
                assert(v.cores[i as int] == h.cores@[i as int]@);
            }
            label.append(number.as_str());
            draw_cpu_row(&mut ops, label.as_str(), &h.cores[i], (i as i32 + 1) * ROW_H);
            assert(draws(ops@) =~= top + core_rows(v.cores, (i + 1) as nat));
            i = i + 1;
        }
        ops
    }

    fn active(&self, stats: &Stats) -> (r: bool) {
        true
    }
}

// ---- the temperatures page ----

/// Left edge of the temperature graphs.
pub const TEMP_GRAPH_X: i32 = 26;

/// Rows between the tops of the sensors' rows.
pub const TEMP_ROW_H: i32 = 30;

/// A sensor's row: label, sparkline, and the current reading in the large
/// font, both colored by status.
pub open spec fn temp_row(s: (Seq<char>, Seq<u8>), current: u8, y: int) -> Seq<Draw> {
    seq![Draw::Text { font: Font::Small, text: s.0, x: 0, y: y + 10, color: WHITE }] + sparkline(
        s.1,
        Graph { x: TEMP_GRAPH_X, y: (y + 3) as i32, width: TEMP_GRAPH_WIDTH, height: 24 },
        Palette::Heat,
    ) + seq![
        right_aligned(
            Font::LargeLatin,
            decimal(current as nat) + "\u{b0}"@,
            WIDTH as int,
            y + 5,
            heat_color(current as int),
        ),
    ]
}

/// The rows of the first `n` sensors.
pub open spec fn temp_rows(
    temps: Seq<(Seq<char>, Seq<u8>)>,
    cpu: Option<u8>,
    nvme: Option<u8>,
    n: nat,
) -> Seq<Draw>
    decreases n,
{
    if n == 0 {
        Seq::empty()
    } else {
        temp_rows(temps, cpu, nvme, (n - 1) as nat) + temp_row(
            temps[n - 1],
            temp_sample(temps[n - 1], cpu, nvme),
            (n - 1) * TEMP_ROW_H,
        )
    }
}

/// What the temperatures page draws.
pub open spec fn temps_picture(
    temps: Seq<(Seq<char>, Seq<u8>)>,
    cpu: Option<u8>,
    nvme: Option<u8>,
) -> Seq<Draw> {
    if temps.len() == 0 {
        seq![
            Draw::Text { font: Font::Small, text: "no temp sensors"@, x: 0, y: 10, color: WHITE },
        ]
    } else {
        temp_rows(
            temps,
            cpu,
            nvme,
            if temps.len() <= 2 {
                temps.len()
            } else {
                2
            },
        )
    }
}

fn draw_temp_row(ops: &mut Vec<Op>, s: &TempSeries, current: u8, y: i32)
    requires
        all_near(draws(old(ops)@)),
        0 <= y <= 100,
        (Draw::Text { font: Font::Small, text: s.label@, x: 0, y: y + 10, color: WHITE }).near(),
    ensures
        all_near(draws(final(ops)@)),
        draws(final(ops)@) == draws(old(ops)@) + temp_row(s@, current, y as int),
{
    let ghost was = draws(ops@);
    let mut text = decimal_text(current as u64);
    proof {
        lemma_decimal_short(current as nat);
        reveal_strlit("\u{b0}");
    }
    text.append("\u{b0}");
    add_text(ops, Font::Small, s.label, 0, y + 10, WHITE);
    draw_sparkline(
        ops,
        &s.samples,
        Graph { x: TEMP_GRAPH_X, y: y + 3, width: TEMP_GRAPH_WIDTH, height: 24 },
        Palette::Heat,
    );
    add_right(ops, Font::LargeLatin, text.as_str(), WIDTH as i32, y + 5, temp_color(current));
    assert(draws(ops@) =~= was + temp_row(s@, current, y as int));
}

/// Processor and NVMe temperatures: one row per sensor.
pub struct TempsPage {
    history: History,
}

impl TempsPage {
    /// The history that the page shows.
    pub closed spec fn data(self) -> HistoryView {
        self.history@
    }

    /// A page about the given history.
    pub fn new(history: History) -> (p: Self)
        ensures
            p.data() == history@,
    {
        TempsPage { history }
    }
}

impl Page for TempsPage {
    open spec fn ready(&self) -> bool {
        forall|i: int| 0 <= i < self.data().temps.len() ==> #[trigger] fits_line(
            self.data().temps[i].0,
        )
    }

    open spec fn picture(&self, stats: &Stats) -> Seq<Draw> {
        temps_picture(self.data().temps, stats.temps().0, stats.temps().1)
    }

    open spec fn wanted(&self, stats: &Stats) -> bool {
        true
    }

    fn render(&self, stats: &Stats) -> (ops: Vec<Op>) {
        let h = &self.history;
        let ghost v = self.data();
        let (cpu_now, nvme_now) = stats.temps_now();
        let mut ops = no_ops();
        if h.temps.len() == 0 {
            proof {
                reveal_strlit("no temp sensors");
            }
            add_text(&mut ops, Font::Small, "no temp sensors", 0, 10, WHITE);
            assert(draws(ops@) =~= temps_picture(v.temps, cpu_now, nvme_now));
            return ops;
        }
        let n: usize = if h.temps.len() <= 2 {
            h.temps.len()
        } else {
            2
        };
        let mut i: usize = 0;
        while i < n
            invariant
                v == self.data(),
                h@ == v,
                self.ready(),
                n <= h.temps@.len(),
                n <= 2,
                i <= n,
                all_near(draws(ops@)),
                draws(ops@) == temp_rows(v.temps, cpu_now, nvme_now, i as nat),
            decreases n - i,
        {
            let series = &h.temps[i];
            assert(v.temps[i as int] == series@);
            let label = chars_of(series.label);
            let live = if same_text(&label, "CPU") {
                cpu_now
            } else {
                nvme_now
            };
            let current: u8 = match live {
                Some(t) => t,
                None => latest_of(&series.samples),
            };
            assert(fits_line(v.temps[i as int].0));
            draw_temp_row(&mut ops, series, current, i as i32 * TEMP_ROW_H);
            i = i + 1;
        }
        ops
    }

    fn active(&self, stats: &Stats) -> (r: bool) {
        true
    }
}

// ---- the memory page ----

/// Left edge of the memory graph.
pub const MEM_GRAPH_X: i32 = 12;

/// What the memory page draws.
pub open spec fn mem_picture(samples: Seq<u8>, used: u64, total: u64) -> Seq<Draw> {
    let p = percent(used as int, total as int) as u8;
    vertical_label("RAM"@, Font::LargeLatin) + sparkline(
        samples,
        Graph { x: MEM_GRAPH_X, y: 4, width: MEM_GRAPH_WIDTH, height: 52 },
        Palette::Load,
    ) + seq![
        right_aligned(Font::LargeLatin, percent_text(p), WIDTH as int, 8, load_color(p as int)),
        right_aligned(Font::Medium, gib_text(used as nat), WIDTH - 8, 30, WHITE),
        right_aligned(Font::Medium, gib_text(total as nat), WIDTH - 8, 45, DIM),
        Draw::Text { font: Font::Small, text: "G"@, x: WIDTH - 6, y: 32, color: GRAY },
        Draw::Text { font: Font::Small, text: "B"@, x: WIDTH - 6, y: 44, color: GRAY },
    ]
}

/// The texts of figures in gibibytes are short.
pub proof fn lemma_gib_short(bytes: u64)
    ensures
        1 <= gib_text(bytes as nat).len() <= 45,
{
    reveal_strlit(".");
    let x = double_quotient(bytes as nat, 0x4000_0000);
    crate::numbers::lemma_double_small(bytes, 0x4000_0000);
    let t = nearest(x.count * 10, x.unit);
    lemma_decimal_short(t / 10);
    lemma_decimal_short(t % 10);
    lemma_decimal_short(nearest(x.count, x.unit));
}

/// Memory usage: a full-height history, the current percentage, used over
/// total.
pub struct MemPage {
    history: History,
}

impl MemPage {
    /// The history that the page shows.
    pub closed spec fn data(self) -> HistoryView {
        self.history@
    }

    /// A page about the given history.
    pub fn new(history: History) -> (p: Self)
        ensures
            p.data() == history@,
    {
        MemPage { history }
    }
}

impl Page for MemPage {
    open spec fn ready(&self) -> bool {
        true
    }

    open spec fn picture(&self, stats: &Stats) -> Seq<Draw> {
        mem_picture(self.data().mem, stats.mem_used, stats.mem_total)
    }

    open spec fn wanted(&self, stats: &Stats) -> bool {
        true
    }

    fn render(&self, stats: &Stats) -> (ops: Vec<Op>) {
        let (used, total) = stats.memory_used_total();
        let p: u8 = percent_of(used, total);
        let mut ops = no_ops();
        proof {
            reveal_strlit("RAM");
            reveal_strlit("G");
            reveal_strlit("B");
            lemma_gib_short(used);
            lemma_gib_short(total);
            assert("RAM"@.len() * Font::LargeLatin.height() == 60);
        }
        draw_vertical_label(&mut ops, "RAM", Font::LargeLatin);
        draw_sparkline(
            &mut ops,
            &self.history.mem,
            Graph { x: MEM_GRAPH_X, y: 4, width: MEM_GRAPH_WIDTH, height: 52 },
            Palette::Load,
        );
        let text = percent_string(p);
        add_right(&mut ops, Font::LargeLatin, text.as_str(), WIDTH as i32, 8, usage_color(p));
        let right: i32 = WIDTH as i32 - 8;
        add_right(&mut ops, Font::Medium, format_gib(used).as_str(), right, 30, WHITE);
        add_right(&mut ops, Font::Medium, format_gib(total).as_str(), right, 45, DIM);
        add_text(&mut ops, Font::Small, "G", WIDTH as i32 - 6, 32, GRAY);
        add_text(&mut ops, Font::Small, "B", WIDTH as i32 - 6, 44, GRAY);
        assert(draws(ops@) =~= mem_picture(self.data().mem, used, total));
        ops
    }

    fn active(&self, stats: &Stats) -> (r: bool) {
        true
    }
}

// ---- the disk page ----

/// Left edge of the disk operations graph.
pub const IO_GRAPH_X: i32 = 11;

/// The least peak of the disk operations graph.
pub const IO_FLOOR: u32 = 50;

/// The color of the disk's fullness.
pub open spec fn fullness_color(p: u8) -> u16 {
    if p <= 79 {
        GREEN
    } else if p <= 89 {
        YELLOW
    } else {
        RED
    }
}

/// Width of the filled part of the fullness bar.
pub open spec fn bar_filled(p: u8) -> nat {
    (if p <= 100 {
        p as nat
    } else {
        100
    }) * 88 / 100
}

/// The upper half of the disk page: the fullness bar, used over total, and
/// the percentage at twice the size of its font.
pub open spec fn fullness_picture(used: u64, total: u64) -> Seq<Draw> {
    let p = percent(used as int, total as int) as u8;
    let figures = gib_text(used as nat) + "/"@ + gib_text(total as nat);
    vertical_label("DISK"@, Font::Medium) + seq![
        Draw::Fill { x: 11, y: 4, w: 88, h: 8, color: GRAY },
        Draw::Fill { x: 11, y: 4, w: bar_filled(p), h: 8, color: fullness_color(p) },
        Draw::Text { font: Font::Small, text: figures, x: 11, y: 16, color: WHITE },
        Draw::Text {
            font: Font::Small,
            text: "G"@,
            x: 11 + width_of(Font::Small, figures) as int,
            y: 16,
            color: GRAY,
        },
    ] + scaled_text(
        percent_text(p),
        Font::Medium,
        WIDTH - 2 * width_of(Font::Medium, percent_text(p)),
        0,
        2,
        fullness_color(p),
    )
}

/// The lower half of the disk page: the disk operations graph and the
/// current rate.
pub open spec fn iops_picture(iops: Seq<u32>) -> Seq<Draw> {
    sparkline_scaled(
        iops,
        Graph { x: IO_GRAPH_X, y: 32, width: IO_GRAPH_WIDTH, height: 26 },
        IO_FLOOR as int,
        LIGHT_BLUE,
    ) + seq![
        right_aligned(
            Font::Small,
            count_text(latest_count(iops) as nat),
            WIDTH as int,
            41,
            LIGHT_BLUE,
        ),
        right_aligned(Font::Small, "iops"@, WIDTH as int, 51, GRAY),
    ]
}

fn draw_fullness(ops: &mut Vec<Op>, used: u64, total: u64)
    requires
        all_near(draws(old(ops)@)),
        used * 100 <= u64::MAX,
    ensures
        all_near(draws(final(ops)@)),
        draws(final(ops)@) == draws(old(ops)@) + fullness_picture(used, total),
{
    let ghost was = draws(ops@);
    let p: u8 = percent_of(used, total);
    let color: u16 = if p <= 79 {
        GREEN
    } else if p <= 89 {
        YELLOW
    } else {
        RED
    };
    proof {
        reveal_strlit("DISK");
        reveal_strlit("/");
        reveal_strlit("G");
        lemma_gib_short(used);
        lemma_gib_short(total);
        lemma_decimal_short(p as nat);
        assert("DISK"@.len() * Font::Medium.height() == 60);
    }
    draw_vertical_label(ops, "DISK", Font::Medium);
    add_fill(ops, 11, 4, 88, 8, GRAY);
    let capped: u32 = if p <= 100 {
        p as u32
    } else {
        100
    };
    add_fill(ops, 11, 4, capped * 88 / 100, 8, color);
    let mut figures = format_gib(used);
    figures.append("/");
    figures.append(format_gib(total).as_str());
    proof {
        let n = figures@.len();
        assert(n <= 91);
        assert(width_of(Font::Small, figures@) == n * 6);
    }
    add_text(ops, Font::Small, figures.as_str(), 11, 16, WHITE);
    add_text(ops, Font::Small, "G", 11 + text_width(Font::Small, figures.as_str()), 16, GRAY);
    let ghost upper = draws(ops@);
    let text = percent_string(p);
    proof {
        lemma_byte_text(p);
        assert(2 <= text@.len() <= 4);
        assert(width_of(Font::Medium, text@) == text@.len() * 9);
        assert(18 <= width_of(Font::Medium, text@) <= 36);
        lemma_text_fits(Font::Medium, text@.len(), 0, 0);
    }
    let x: i32 = WIDTH as i32 - 2 * text_width(Font::Medium, text.as_str());
    proof {
        lemma_doubled(
            Scaling {
                w: width_of(Font::Medium, text@) as usize,
                h: Font::Medium.height() as usize,
                x,
                y: 0,
                scale: 2,
                color,
            },
        );
    }
    draw_scaled_text(ops, text.as_str(), Font::Medium, x, 0, 2, color);
    assert(draws(ops@) =~= was + fullness_picture(used, total));
}

/// Small text on the panel can be drawn at twice its size.
proof fn lemma_doubled(g: Scaling)
    requires
        g.w <= 80,
        g.h <= 40,
        g.scale == 2,
        0 <= g.x <= 160,
        g.y == 0,
    ensures
        g.wf(),
{
    let (w, h, s) = (g.w as int, g.h as int, g.scale as int);
    assert((w - 1) * s == 2 * w - 2 && (h - 1) * s == 2 * h - 2) by (nonlinear_arith)
        requires
            s == 2,
    ;
}

/// The text of a percentage has at most three digits and the sign.
pub proof fn lemma_byte_text(p: u8)
    ensures
        percent_text(p).len() <= 4,
{
    reveal_strlit("%");
    reveal_with_fuel(crate::layout::power_of_ten, 4);
    crate::layout::lemma_decimal_len(p as nat, 3, 1000);
}

/// The texts of counts are short.
pub proof fn lemma_count_short(n: u32)
    ensures
        1 <= count_text(n as nat).len() <= 50,
{
    reveal_strlit(".");
    reveal_strlit("k");
    reveal_strlit("M");
    lemma_decimal_short(n as nat);
    lemma_decimal_short(n as nat / 1_000);
    if 1_000 <= n <= 9_999 {
        let x = double_quotient(n as nat, 1_000);
        crate::numbers::lemma_double_small(n as u64, 1_000);
        let t = nearest(x.count * 10, x.unit);
        lemma_decimal_short(t / 10);
        lemma_decimal_short(t % 10);
    } else if n > 999_999 {
        let x = double_quotient(n as nat, 1_000_000);
        crate::numbers::lemma_double_small(n as u64, 1_000_000);
        let t = nearest(x.count * 10, x.unit);
        lemma_decimal_short(t / 10);
        lemma_decimal_short(t % 10);
    }
}

fn draw_iops(ops: &mut Vec<Op>, iops: &VecDeque<u32>)
    requires
        all_near(draws(old(ops)@)),
    ensures
        all_near(draws(final(ops)@)),
        draws(final(ops)@) == draws(old(ops)@) + iops_picture(iops@),
{
    let ghost was = draws(ops@);
    draw_sparkline_scaled(
        ops,
        iops,
        Graph { x: IO_GRAPH_X, y: 32, width: IO_GRAPH_WIDTH, height: 26 },
        IO_FLOOR,
        LIGHT_BLUE,
    );
    let current: u32 = latest_count_of(iops);
    proof {
        lemma_count_short(current);
        reveal_strlit("iops");
    }
    let text = format_count(current);
    add_right(ops, Font::Small, text.as_str(), WIDTH as i32, 41, LIGHT_BLUE);
    add_right(ops, Font::Small, "iops", WIDTH as i32, 51, GRAY);
    assert(draws(ops@) =~= was + iops_picture(iops@));
}

/// Root filesystem fullness over a history of disk operations.
pub struct DiskPage {
    history: History,
}

impl DiskPage {
    /// The history that the page shows.
    pub closed spec fn data(self) -> HistoryView {
        self.history@
    }

    /// A page about the given history.
    pub fn new(history: History) -> (p: Self)
        ensures
            p.data() == history@,
    {
        DiskPage { history }
    }
}

impl Page for DiskPage {
    open spec fn ready(&self) -> bool {
        true
    }

    open spec fn picture(&self, stats: &Stats) -> Seq<Draw> {
        fullness_picture(stats.disk_used, stats.disk_total) + iops_picture(self.data().iops)
    }

    open spec fn wanted(&self, stats: &Stats) -> bool {
        true
    }

    fn render(&self, stats: &Stats) -> (ops: Vec<Op>) {
        let (used, total) = stats.disk_used_total();
        let mut ops = no_ops();
        draw_fullness(&mut ops, used, total);
        draw_iops(&mut ops, &self.history.iops);
        assert(draws(ops@) =~= fullness_picture(used, total) + iops_picture(self.data().iops));
        ops
    }

    fn active(&self, stats: &Stats) -> (r: bool) {
        true
    }
}

// ---- the network page ----

/// The middle row of the page area.
pub const NET_MID: i32 = 30;

/// The labels and the current rate of one direction, from row `top` on.
pub open spec fn net_figures(label: Seq<char>, current: u32, color: u16, top: int) -> Seq<Draw> {
    stack(label, Font::Small, 0, top, 10, color) + seq![
        right_aligned(Font::Small, rate_text(current as nat).0, WIDTH as int, top + 3, color),
        right_aligned(Font::Small, rate_text(current as nat).1, WIDTH as int, top + 13, GRAY),
    ]
}

/// What the network page draws.
pub open spec fn net_picture(rx: Seq<u32>, tx: Seq<u32>) -> Seq<Draw> {
    seq![
        Draw::Fill { x: NET_GRAPH_X as int, y: NET_MID as int, w: NET_GRAPH_WIDTH as nat, h: 1, color: GRAY },
    ] + net_half(rx, NET_MID as int, true, NET_MID as int, LIGHT_BLUE) + net_half(
        tx,
        NET_MID as int,
        false,
        PAGE_HEIGHT - NET_MID - 1,
        MAGENTA,
    ) + net_figures("IN"@, latest_count(rx), LIGHT_BLUE, 5) + net_figures(
        "OUT"@,
        latest_count(tx),
        MAGENTA,
        NET_MID + 1,
    )
}

/// The texts of rates are short.
pub proof fn lemma_rate_short(n: u32)
    ensures
        1 <= rate_text(n as nat).0.len() <= 50,
        rate_text(n as nat).1.len() <= 4,
{
    reveal_strlit(".");
    reveal_strlit("B/s");
    reveal_strlit("kB/s");
    reveal_strlit("MB/s");
    reveal_strlit("GB/s");
    lemma_decimal_short(n as nat);
    if n >= 1_000 {
        let d: u64 = if n < 1_000_000 {
            1_000
        } else if n < 1_000_000_000 {
            1_000_000
        } else {
            1_000_000_000
        };
        let x = double_quotient(n as nat, d as nat);
        crate::numbers::lemma_double_small(n as u64, d);
        let t = nearest(x.count * 10, x.unit);
        lemma_decimal_short(t / 10);
        lemma_decimal_short(t % 10);
        lemma_decimal_short(nearest(x.count, x.unit));
    }
}

fn draw_net_figures(ops: &mut Vec<Op>, label: &str, current: u32, color: u16, top: i32)
    requires
        all_near(draws(old(ops)@)),
        label@.len() <= 100,
        0 <= top <= 100,
    ensures
        all_near(draws(final(ops)@)),
        draws(final(ops)@) == draws(old(ops)@) + net_figures(label@, current, color, top as int),
{
    let ghost was = draws(ops@);
    proof {
        lemma_rate_short(current);
    }
    draw_stack(ops, label, Font::Small, 0, top, 10, color);
    let (value, unit) = format_rate(current);
    add_right(ops, Font::Small, value.as_str(), WIDTH as i32, top + 3, color);
    add_right(ops, Font::Small, unit, WIDTH as i32, top + 13, GRAY);
    assert(draws(ops@) =~= was + net_figures(label@, current, color, top as int));
}

/// Network throughput: one graph split at a middle row, receive above it and
/// transmit below.
pub struct NetPage {
    history: History,
}

impl NetPage {
    /// The history that the page shows.
    pub closed spec fn data(self) -> HistoryView {
        self.history@
    }

    /// A page about the given history.
    pub fn new(history: History) -> (p: Self)
        ensures
            p.data() == history@,
    {
        NetPage { history }
    }
}

impl Page for NetPage {
    open spec fn ready(&self) -> bool {
        true
    }

    open spec fn picture(&self, stats: &Stats) -> Seq<Draw> {
        net_picture(self.data().net_rx, self.data().net_tx)
    }

    open spec fn wanted(&self, stats: &Stats) -> bool {
        true
    }

    fn render(&self, stats: &Stats) -> (ops: Vec<Op>) {
        let h = &self.history;
        let mid: i32 = PAGE_HEIGHT as i32 / 2;
        let mut ops = no_ops();
        proof {
            reveal_strlit("IN");
            reveal_strlit("OUT");
        }
        add_fill(&mut ops, NET_GRAPH_X, mid, NET_GRAPH_WIDTH as u32, 1, GRAY);
        draw_net_half(&mut ops, &h.net_rx, mid, true, mid, LIGHT_BLUE);
        draw_net_half(&mut ops, &h.net_tx, mid, false, PAGE_HEIGHT as i32 - mid - 1, MAGENTA);
        draw_net_figures(&mut ops, "IN", latest_count_of(&h.net_rx), LIGHT_BLUE, 5);
        draw_net_figures(&mut ops, "OUT", latest_count_of(&h.net_tx), MAGENTA, mid + 1);
        assert(draws(ops@) =~= net_picture(self.data().net_rx, self.data().net_tx));
        ops
    }

    fn active(&self, stats: &Stats) -> (r: bool) {
        true
    }
}

// ---- the proxmox page ----

/// The guest counts, or that there are none to count.
pub open spec fn guests_picture(vms: Option<GuestCounts>) -> Seq<Draw> {
    match vms {
        Some(c) => stack("VM"@, Font::Small, 0, 2, 10, WHITE).push(
            Draw::Text {
                font: Font::LargeLatin,
                text: decimal(c.running as nat) + "/"@ + decimal(c.total as nat),
                x: 10,
                y: 2,
                color: WHITE,
            },
        ),
        None => seq![
            Draw::Text { font: Font::Small, text: "not a pve host"@, x: 0, y: 8, color: GRAY },
        ],
    }
}

/// The load row: label, history, current load.
pub open spec fn load_picture(load: Seq<u8>, text: Seq<char>) -> Seq<Draw> {
    stack("LOAD"@, Font::Tiny, 0, 32, 7, WHITE) + sparkline(
        load,
        Graph { x: 8, y: 32, width: GRAPH_WIDTH, height: 26 },
        Palette::Load,
    ) + seq![
        right_aligned(Font::Small, text, WIDTH as int, 40, load_color(latest(load) as int)),
    ]
}

/// What the proxmox page draws.
pub open spec fn proxmox_picture(
    vms: Option<GuestCounts>,
    uptime_secs: u64,
    load: Seq<u8>,
    load_text: Seq<char>,
) -> Seq<Draw> {
    guests_picture(vms) + seq![
        right_aligned(Font::LargeLatin, uptime(uptime_secs as nat), WIDTH - 8, 2, WHITE),
    ] + stack("UP"@, Font::Small, WIDTH - 6, 2, 10, WHITE) + load_picture(load, load_text)
}

fn draw_guests(ops: &mut Vec<Op>, vms: &Option<GuestCounts>)
    requires
        all_near(draws(old(ops)@)),
    ensures
        all_near(draws(final(ops)@)),
        draws(final(ops)@) == draws(old(ops)@) + guests_picture(*vms),
{
    let ghost was = draws(ops@);
    match vms {
        Some(c) => {
            proof {
                reveal_strlit("VM");
                reveal_strlit("/");
                lemma_decimal_short(c.running as nat);
                lemma_decimal_short(c.total as nat);
            }
            draw_stack(ops, "VM", Font::Small, 0, 2, 10, WHITE);
            let mut text = decimal_text(c.running as u64);
            text.append("/");
            text.append(decimal_text(c.total as u64).as_str());
            add_text(ops, Font::LargeLatin, text.as_str(), 10, 2, WHITE);
        },
        None => {
            proof {
                reveal_strlit("not a pve host");
            }
            add_text(ops, Font::Small, "not a pve host", 0, 8, GRAY);
        },
    }
    assert(draws(ops@) =~= was + guests_picture(*vms));
}

/// The texts of uptimes are short.
pub proof fn lemma_uptime_short(secs: u64)
    ensures
        uptime(secs as nat).len() <= 42,
{
    reveal_strlit("d");
    reveal_strlit("h");
    reveal_strlit("m");
    lemma_decimal_short(secs as nat / 86_400);
    lemma_decimal_short(secs as nat % 86_400 / 3600);
    lemma_decimal_short(secs as nat % 3600 / 60);
}

/// Proxmox node: guest counts and uptime over a load history.
pub struct ProxmoxPage {
    history: History,
    vms: Option<GuestCounts>,
    uptime_secs: u64,
    load_text: String,
}

impl ProxmoxPage {
    /// The history that the page shows.
    pub closed spec fn data(self) -> HistoryView {
        self.history@
    }

    /// The guest counts that the page shows.
    pub closed spec fn guests(self) -> Option<GuestCounts> {
        self.vms
    }

    /// The uptime that the page shows.
    pub closed spec fn up(self) -> u64 {
        self.uptime_secs
    }

    /// The load that the page shows.
    pub closed spec fn load(self) -> Seq<char> {
        self.load_text@
    }

    /// A page about the given history, guests, uptime, and load average as
    /// text.
    pub fn new(
        history: History,
        vms: Option<GuestCounts>,
        uptime_secs: u64,
        load_text: String,
    ) -> (p: Self)
        ensures
            p.data() == history@,
            p.guests() == vms,
            p.up() == uptime_secs,
            p.load() == load_text@,
    {
        ProxmoxPage { history, vms, uptime_secs, load_text }
    }
}

impl Page for ProxmoxPage {
    open spec fn ready(&self) -> bool {
        right_aligned(Font::Small, self.load(), WIDTH as int, 40, WHITE).near()
    }

    open spec fn picture(&self, stats: &Stats) -> Seq<Draw> {
        proxmox_picture(self.guests(), self.up(), self.data().load, self.load())
    }

    open spec fn wanted(&self, stats: &Stats) -> bool {
        true
    }

    fn render(&self, stats: &Stats) -> (ops: Vec<Op>) {
        let mut ops = no_ops();
        proof {
            reveal_strlit("UP");
            reveal_strlit("LOAD");
            lemma_uptime_short(self.uptime_secs);
        }
        draw_guests(&mut ops, &self.vms);
        let time = uptime_text(self.uptime_secs);
        add_right(&mut ops, Font::LargeLatin, time.as_str(), WIDTH as i32 - 8, 2, WHITE);
        draw_stack(&mut ops, "UP", Font::Small, WIDTH as i32 - 6, 2, 10, WHITE);
        draw_stack(&mut ops, "LOAD", Font::Tiny, 0, 32, 7, WHITE);
        draw_sparkline(
            &mut ops,
            &self.history.load,
            Graph { x: 8, y: 32, width: GRAPH_WIDTH, height: 26 },
            Palette::Load,
        );
        let now: u8 = latest_of(&self.history.load);
        add_right(
            &mut ops,
            Font::Small,
            self.load_text.as_str(),
            WIDTH as i32,
            40,
            usage_color(now),
        );
        assert(draws(ops@) =~= self.picture(stats));
        ops
    }

    fn active(&self, stats: &Stats) -> (r: bool) {
        true
    }
}

// ---- the warnings page ----

/// The first `n` warnings, one line each: severe ones red, the others
/// yellow.
pub open spec fn warning_lines(w: Seq<(Seq<char>, bool)>, n: nat) -> Seq<Draw> {
    Seq::new(
        n,
        |i: int|
            Draw::Text {
                font: Font::Small,
                text: w[i].0,
                x: 0,
                y: i * 10,
                color: if w[i].1 {
                    RED
                } else {
                    YELLOW
                },
            },
    )
}

/// What the warnings page draws.
pub open spec fn warnings_picture(w: Seq<(Seq<char>, bool)>) -> Seq<Draw> {
    if w.len() == 0 {
        seq![Draw::Text { font: Font::Small, text: "all clear"@, x: 0, y: 26, color: GRAY }]
    } else {
        warning_lines(
            w,
            if w.len() <= 6 {
                w.len()
            } else {
                6
            },
        )
    }
}

/// Draws the given warnings.
pub fn draw_warnings(warnings: &Vec<Warning>) -> (ops: Vec<Op>)
    requires
        forall|i: int| 0 <= i < warnings@.len() ==> fits_line((#[trigger] warnings@[i]).text@),
    ensures
        draws(ops@) == warnings_picture(warning_views(warnings@)),
        all_near(draws(ops@)),
{
    let ghost w = warning_views(warnings@);
    let mut ops = no_ops();
    if warnings.len() == 0 {
        proof {
            reveal_strlit("all clear");
        }
        add_text(&mut ops, Font::Small, "all clear", 0, 26, GRAY);
        assert(draws(ops@) =~= warnings_picture(w));
        return ops;
    }
    let n: usize = if warnings.len() <= 6 {
        warnings.len()
    } else {
        6
    };
    let mut i: usize = 0;
    assert(warning_lines(w, 0) =~= Seq::<Draw>::empty());
    while i < n
        invariant
            w == warning_views(warnings@),
            forall|k: int| 0 <= k < warnings@.len() ==> fits_line((#[trigger] warnings@[k]).text@),
            n <= warnings@.len(),
            n <= 6,
            i <= n,
            all_near(draws(ops@)),
            draws(ops@) == warning_lines(w, i as nat),
        decreases n - i,
    {
        let color: u16 = if warnings[i].severe {
            RED
        } else {
            YELLOW
        };
        assert(w[i as int] == warnings@[i as int]@);
        add_text(&mut ops, Font::Small, warnings[i].text.as_str(), 0, i as i32 * 10, color);
        assert(draws(ops@) =~= warning_lines(w, (i + 1) as nat));
        i = i + 1;
    }
    ops
}

/// Host problems, one line each. The page leaves the rotation while
/// everything is clear.
pub struct WarningsPage;

impl Page for WarningsPage {
    open spec fn ready(&self) -> bool {
        true
    }

    open spec fn picture(&self, stats: &Stats) -> Seq<Draw> {
        warnings_picture(stats.problems())
    }

    open spec fn wanted(&self, stats: &Stats) -> bool {
        stats.problems().len() > 0
    }

    fn render(&self, stats: &Stats) -> (ops: Vec<Op>) {
        let warnings = stats.warnings();
        proof {
            crate::stats::lemma_problems_short(stats);
            assert forall|i: int| 0 <= i < warnings@.len() implies fits_line(
                (#[trigger] warnings@[i]).text@,
            ) by {
                assert(warning_views(warnings@)[i] == warnings@[i]@);
            }
        }
        draw_warnings(&warnings)
    }

    fn active(&self, stats: &Stats) -> (r: bool) {
        let warnings = stats.warnings();
        assert(warning_views(warnings@).len() == warnings@.len());
        warnings.len() > 0
    }
}

// ---- the pages by their kind ----

/// What only the proxmox page shows, as it is read now.
pub struct Node {
    pub vms: Option<GuestCounts>,
    pub uptime_secs: u64,
    pub load_text: String,
}

/// What the page of a kind draws.
pub open spec fn picture_of(kind: PageKind, stats: &Stats, h: HistoryView, node: Node) -> Seq<Draw> {
    match kind {
        PageKind::Cpus => cpus_picture(h.total, h.cores),
        PageKind::Temps => temps_picture(h.temps, stats.temps().0, stats.temps().1),
        PageKind::Mem => mem_picture(h.mem, stats.mem_used, stats.mem_total),
        PageKind::Disk => fullness_picture(stats.disk_used, stats.disk_total) + iops_picture(
            h.iops,
        ),
        PageKind::Network => net_picture(h.net_rx, h.net_tx),
        PageKind::Warnings => WarningsPage.picture(stats),
        PageKind::Proxmox => proxmox_picture(
            node.vms,
            node.uptime_secs,
            h.load,
            node.load_text@,
        ),
        PageKind::UctronicsCpu => CpuScreen.picture(stats),
        PageKind::UctronicsRam => RamScreen.picture(stats),
        PageKind::UctronicsTemp => TempScreen.picture(stats),
        PageKind::UctronicsDisk => DiskScreen.picture(stats),
    }
}

/// Whether the texts that the page of a kind takes from elsewhere can be
/// drawn.
pub open spec fn kind_ready(kind: PageKind, h: HistoryView, node: Node) -> bool {
    match kind {
        PageKind::Temps => forall|i: int|
            0 <= i < h.temps.len() ==> #[trigger] fits_line(h.temps[i].0),
        PageKind::Proxmox => right_aligned(
            Font::Small,
            node.load_text@,
            WIDTH as int,
            40,
            WHITE,
        ).near(),
        _ => true,
    }
}

/// What the page of a kind draws now.
pub fn render_page(kind: PageKind, stats: &Stats, history: History, node: Node) -> (ops: Vec<Op>)
    requires
        stats.wf(),
        kind_ready(kind, history@, node),
    ensures
        draws(ops@) == picture_of(kind, stats, history@, node),
        all_near(draws(ops@)),
{
    match kind {
        PageKind::Cpus => CpusPage::new(history).render(stats),
        PageKind::Temps => TempsPage::new(history).render(stats),
        PageKind::Mem => MemPage::new(history).render(stats),
        PageKind::Disk => DiskPage::new(history).render(stats),
        PageKind::Network => NetPage::new(history).render(stats),
        PageKind::Warnings => WarningsPage.render(stats),
        PageKind::Proxmox => ProxmoxPage::new(
            history,
            node.vms,
            node.uptime_secs,
            node.load_text,
        ).render(stats),
        PageKind::UctronicsCpu => CpuScreen.render(stats),
        PageKind::UctronicsRam => RamScreen.render(stats),
        PageKind::UctronicsTemp => TempScreen.render(stats),
        PageKind::UctronicsDisk => DiskScreen.render(stats),
    }
}

/// Which of the chosen pages want to show: all but the warnings page always
/// do, and that one while there is something to warn about.
pub fn wanted_pages(kinds: &Vec<PageKind>, stats: &Stats) -> (r: Vec<bool>)
    requires
        stats.wf(),
    ensures
        r@.len() == kinds@.len(),
        forall|i: int|
            0 <= i < r@.len() ==> #[trigger] r@[i] == (kinds@[i] == PageKind::Warnings
                ==> stats.problems().len() > 0),
{
    let warn = WarningsPage.active(stats);
    let mut r: Vec<bool> = Vec::new();
    let mut i: usize = 0;
    while i < kinds.len()
        invariant
            warn == (stats.problems().len() > 0),
            i <= kinds@.len(),
            r@.len() == i,
            forall|k: int|
                0 <= k < i ==> #[trigger] r@[k] == (kinds@[k] == PageKind::Warnings
                    ==> stats.problems().len() > 0),
        decreases kinds@.len() - i,
    {
        r.push(kinds[i] != PageKind::Warnings || warn);
        i = i + 1;
    }
    r
}

} // verus!
