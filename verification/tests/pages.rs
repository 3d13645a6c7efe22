use std::collections::VecDeque;

use rack_panel::color::{
    BLUE, DIM, GRAY, GREEN, LIGHT_BLUE, MAGENTA, ORANGE, RED, WHITE, YELLOW,
};
use rack_panel::font::Font;
use rack_panel::framebuffer::Op;
use rack_panel::history::{History, TempSeries};
use rack_panel::host::GuestCounts;
use rack_panel::layout::{
    draw_gauge, draw_scaled_text, draw_sparkline_scaled, draw_vertical_label, window_peak, Graph,
};
use rack_panel::pages::{
    draw_warnings, render_page, wanted_pages, CpuScreen, CpusPage, DiskPage, DiskScreen, MemPage,
    NetPage, Node, Page, ProxmoxPage, RamScreen, TempScreen, TempsPage, WarningsPage,
};
use rack_panel::rotation::PageKind;
use rack_panel::stats::{Component, Stats, Warning};

const GIB: u64 = 1 << 30;

fn stats(components: Vec<Component>) -> Stats {
    Stats::new(42, components, None, (4 * GIB, 16 * GIB), (91 * GIB, 100 * GIB), 0)
}

fn fill(o: &Op) -> Option<(i32, i32, u32, u32, u16)> {
    match o {
        Op::Fill { x, y, w, h, color } => Some((*x, *y, *w, *h, *color)),
        Op::Text { .. } => None,
    }
}

fn text(o: &Op) -> Option<(Font, String, i32, i32, u16)> {
    match o {
        Op::Text { font, text, x, y, color } => Some((*font, text.clone(), *x, *y, *color)),
        Op::Fill { .. } => None,
    }
}

fn fills(ops: &[Op]) -> Vec<(i32, i32, u32, u32, u16)> {
    ops.iter().filter_map(fill).collect()
}

fn lines(ops: &[Op]) -> Vec<(Font, String, i32, i32, u16)> {
    ops.iter().filter_map(text).collect()
}

fn line(f: Font, t: &str, x: i32, y: i32, c: u16) -> (Font, String, i32, i32, u16) {
    (f, t.to_string(), x, y, c)
}

#[test]
fn single_stat_screens() {
    let s = stats(vec![Component { label: "cpu".to_string(), temperature: Some(66) }]);
    let cpu = CpuScreen.render(&s);
    assert!(CpuScreen.active(&s));
    assert_eq!(lines(&cpu)[1].1, "42");
    assert_eq!(lines(&cpu)[2].1, "%");
    let segments = fills(&cpu);
    assert_eq!(segments.len(), 10);
    assert_eq!(segments.iter().filter(|f| f.4 == GREEN).count(), 4);
    assert_eq!(segments.iter().filter(|f| f.4 == GRAY).count(), 6);
    assert_eq!(fills(&RamScreen.render(&s)).iter().filter(|f| f.4 == YELLOW).count(), 2);
    assert_eq!(fills(&DiskScreen.render(&s)).iter().filter(|f| f.4 == BLUE).count(), 9);
    let temp = TempScreen.render(&s);
    assert_eq!(lines(&temp)[0].1, "TEMP:");
    assert_eq!(lines(&temp)[1].1, "66");
    assert_eq!(lines(&temp)[2].1, "C");
    assert_eq!(fills(&temp).iter().filter(|f| f.4 == RED).count(), 6);
}

#[test]
fn gauge_is_filled_in_proportion() {
    for (percent, lit) in [(0, 0), (9, 0), (10, 1), (50, 5), (99, 9), (100, 10), (255, 10)] {
        let mut ops = vec![];
        draw_gauge(&mut ops, percent, GREEN);
        let want: Vec<_> = (0..10)
            .map(|s| (30 + 10 * s, 35, 6, 10, if s < lit { GREEN } else { GRAY }))
            .collect();
        assert_eq!(fills(&ops), want);
    }
}

#[test]
fn per_core_page() {
    let h = History {
        total: VecDeque::from([0, 50, 100]),
        cores: vec![VecDeque::from([1]), VecDeque::new(), VecDeque::new(), VecDeque::new(), VecDeque::from([99])],
        ..History::default()
    };
    let ops = CpusPage::new(h).render(&stats(vec![]));
    let t = lines(&ops);
    assert_eq!(t.len(), 10);
    assert_eq!(t[0], line(Font::Small, "C*", 0, 0, WHITE));
    assert_eq!(t[1], line(Font::Small, "100%", 136, 0, RED));
    assert_eq!(t[2], line(Font::Small, "C0", 0, 12, WHITE));
    assert_eq!(t[4], line(Font::Small, "C1", 0, 24, WHITE));
    assert_eq!(t[5], line(Font::Small, "0%", 148, 24, GREEN));
    assert_eq!(t[8], line(Font::Small, "C3", 0, 48, WHITE));
    assert_eq!(
        fills(&ops),
        vec![
            (132, 0, 1, 10, RED),
            (131, 5, 1, 5, YELLOW),
            (132, 21, 1, 1, rack_panel::color::usage_color(1)),
        ]
    );
}

#[test]
fn long_series_show_their_newest_samples() {
    let h = History { total: VecDeque::from(vec![10u8; 160]), ..History::default() };
    let f = fills(&CpusPage::new(h).render(&stats(vec![])));
    assert_eq!(f.len(), 118);
    assert_eq!(f.iter().map(|f| f.0).min(), Some(15));
    assert_eq!(f.iter().map(|f| f.0).max(), Some(132));
}

#[test]
fn temperatures_page() {
    let bare = TempsPage::new(History::default()).render(&stats(vec![]));
    assert_eq!(lines(&bare), vec![line(Font::Small, "no temp sensors", 0, 10, WHITE)]);
    let h = History {
        temps: vec![
            TempSeries { label: "CPU", samples: VecDeque::from([50, 100]) },
            TempSeries { label: "NVME", samples: VecDeque::from([66]) },
        ],
        ..History::default()
    };
    let s = stats(vec![Component { label: "cpu".to_string(), temperature: Some(49) }]);
    let ops = TempsPage::new(h).render(&s);
    assert_eq!(
        lines(&ops),
        vec![
            line(Font::Small, "CPU", 0, 10, WHITE),
            line(Font::LargeLatin, "49\u{b0}", 130, 5, GREEN),
            line(Font::Small, "NVME", 0, 40, WHITE),
            line(Font::LargeLatin, "66\u{b0}", 130, 35, ORANGE),
        ]
    );
    assert_eq!(
        fills(&ops),
        vec![(107, 3, 1, 24, RED), (106, 15, 1, 12, YELLOW), (107, 41, 1, 16, ORANGE)]
    );
}

#[test]
fn memory_page() {
    let h = History { mem: VecDeque::from([25]), ..History::default() };
    let ops = MemPage::new(h).render(&stats(vec![]));
    let t = lines(&ops);
    assert_eq!(t[0], line(Font::LargeLatin, "R", 0, 0, WHITE));
    assert_eq!(t[2], line(Font::LargeLatin, "M", 0, 40, WHITE));
    assert_eq!(t[3].1, "25%");
    assert_eq!((t[3].2, t[3].3), (130, 8));
    assert_eq!(t[4], line(Font::Medium, "4.0", 125, 30, WHITE));
    assert_eq!(t[5], line(Font::Medium, "16", 134, 45, DIM));
    assert_eq!(t[6], line(Font::Small, "G", 154, 32, GRAY));
    assert_eq!(t[7], line(Font::Small, "B", 154, 44, GRAY));
    let f = fills(&ops);
    assert_eq!((f[0].0, f[0].1, f[0].3), (116, 43, 13));
}

#[test]
fn disk_page() {
    let h = History { iops: VecDeque::from([10, 0, 1200]), ..History::default() };
    let ops = DiskPage::new(h).render(&stats(vec![]));
    let t = lines(&ops);
    assert_eq!(t[3], line(Font::Medium, "K", 0, 45, WHITE));
    assert_eq!(t[4], line(Font::Small, "91/100", 11, 16, WHITE));
    assert_eq!(t[5], line(Font::Small, "G", 47, 16, GRAY));
    assert_eq!(t[6], line(Font::Small, "1.2k", 136, 41, LIGHT_BLUE));
    assert_eq!(t[7], line(Font::Small, "iops", 136, 51, GRAY));
    let f = fills(&ops);
    assert_eq!(f[0], (11, 4, 88, 8, GRAY));
    assert_eq!(f[1], (11, 4, 80, 8, RED));
    let n = f.len();
    assert_eq!(f[n - 2], (132, 32, 1, 26, LIGHT_BLUE));
    assert_eq!(f[n - 1], (130, 57, 1, 1, LIGHT_BLUE));
    assert!(f[2..n - 2].iter().all(|b| b.2 == 2 && b.3 == 2 && b.4 == RED && b.0 >= 106));
    assert!(n > 20);
}

#[test]
fn disk_colors() {
    for (used, color) in [(79, GREEN), (80, YELLOW), (89, YELLOW), (90, RED)] {
        let s = Stats::new(0, vec![], None, (0, 0), (used, 100), 0);
        assert_eq!(fills(&DiskPage::new(History::default()).render(&s))[1].4, color);
    }
}

#[test]
fn network_page() {
    let h = History {
        net_rx: VecDeque::from([5_000, 20_000]),
        net_tx: VecDeque::from([700]),
        ..History::default()
    };
    let ops = NetPage::new(h).render(&stats(vec![]));
    assert_eq!(
        fills(&ops),
        vec![
            (8, 30, 124, 1, GRAY),
            (131, 0, 1, 30, LIGHT_BLUE),
            (130, 22, 1, 8, LIGHT_BLUE),
            (131, 31, 1, 3, MAGENTA),
        ]
    );
    assert_eq!(
        lines(&ops),
        vec![
            line(Font::Small, "I", 0, 5, LIGHT_BLUE),
            line(Font::Small, "N", 0, 15, LIGHT_BLUE),
            line(Font::Small, "20", 148, 8, LIGHT_BLUE),
            line(Font::Small, "kB/s", 136, 18, GRAY),
            line(Font::Small, "O", 0, 31, MAGENTA),
            line(Font::Small, "U", 0, 41, MAGENTA),
            line(Font::Small, "T", 0, 51, MAGENTA),
            line(Font::Small, "700", 142, 34, MAGENTA),
            line(Font::Small, "B/s", 142, 44, GRAY),
        ]
    );
}

#[test]
fn proxmox_page() {
    let h = History { load: VecDeque::from([100]), ..History::default() };
    let vms = Some(GuestCounts { running: 3, total: 12 });
    let ops = ProxmoxPage::new(h, vms, 90_061, "1.25".to_string()).render(&stats(vec![]));
    assert_eq!(
        lines(&ops),
        vec![
            line(Font::Small, "V", 0, 2, WHITE),
            line(Font::Small, "M", 0, 12, WHITE),
            line(Font::LargeLatin, "3/12", 10, 2, WHITE),
            line(Font::LargeLatin, "1d1h", 112, 2, WHITE),
            line(Font::Small, "U", 154, 2, WHITE),
            line(Font::Small, "P", 154, 12, WHITE),
            line(Font::Tiny, "L", 0, 32, WHITE),
            line(Font::Tiny, "O", 0, 39, WHITE),
            line(Font::Tiny, "A", 0, 46, WHITE),
            line(Font::Tiny, "D", 0, 53, WHITE),
            line(Font::Small, "1.25", 136, 40, RED),
        ]
    );
    assert_eq!(fills(&ops), vec![(125, 32, 1, 26, RED)]);
    let other = ProxmoxPage::new(History::default(), None, 60, "0.10".to_string());
    let ops = other.render(&stats(vec![]));
    assert_eq!(lines(&ops)[0], line(Font::Small, "not a pve host", 0, 8, GRAY));
    assert_eq!(lines(&ops).last(), Some(&line(Font::Small, "0.10", 136, 40, GREEN)));
}

#[test]
fn warnings_page() {
    let clear = Stats::new(0, vec![], None, (0, 0), (0, 0), 0);
    assert!(!WarningsPage.active(&clear));
    assert_eq!(
        lines(&WarningsPage.render(&clear)),
        vec![line(Font::Small, "all clear", 0, 26, GRAY)]
    );
    let bad = Stats::new(0, vec![], None, (99, 100), (95, 100), 0x4);
    assert!(WarningsPage.active(&bad));
    assert_eq!(
        lines(&WarningsPage.render(&bad)),
        vec![
            line(Font::Small, "THROTTLED", 0, 0, RED),
            line(Font::Small, "DISK 95% FULL", 0, 10, RED),
            line(Font::Small, "RAM 99%", 0, 20, YELLOW),
        ]
    );
    let many: Vec<Warning> =
        (0..8).map(|i| Warning { text: format!("{i}"), severe: i < 2 }).collect();
    let six = lines(&draw_warnings(&many));
    assert_eq!(six.len(), 6);
    assert_eq!(six[5], line(Font::Small, "5", 0, 50, YELLOW));
}

#[test]
fn peaks_and_labels() {
    let s = VecDeque::from([900, 3, 7]);
    assert_eq!(window_peak(&s, 2, 5), 7);
    assert_eq!(window_peak(&s, 2, 50), 50);
    assert_eq!(window_peak(&s, 9, 50), 900);
    assert_eq!(window_peak(&VecDeque::new(), 9, 50), 50);
    let mut ops = vec![];
    draw_vertical_label(&mut ops, "ABCDE", Font::LargeLatin);
    assert_eq!(lines(&ops)[4], line(Font::LargeLatin, "E", 0, 44, WHITE));
    let mut ops = vec![];
    draw_vertical_label(&mut ops, "A", Font::Small);
    assert_eq!(lines(&ops), vec![line(Font::Small, "A", 0, 0, WHITE)]);
}

#[test]
fn scaled_text_doubles_every_pixel() {
    let mut small = rack_panel::framebuffer::FrameBuffer::new();
    small.draw_panel(&vec![Op::Text {
        font: Font::Medium,
        text: "7%".to_string(),
        x: 0,
        y: 0,
        color: RED,
    }]);
    let mut ops = vec![];
    draw_scaled_text(&mut ops, "7%", Font::Medium, 20, 10, 2, RED);
    let mut big = rack_panel::framebuffer::FrameBuffer::new();
    big.draw_panel(&ops);
    for y in 0..80u16 {
        for x in 0..160u16 {
            let want = if (20..56).contains(&x) && (10..40).contains(&y) {
                small.pixel((x - 20) / 2, (y - 10) / 2)
            } else {
                0
            };
            assert_eq!(big.pixel(x, y), want);
        }
    }
}

fn node() -> Node {
    Node {
        vms: Some(GuestCounts { running: 1, total: 2 }),
        uptime_secs: 61,
        load_text: "0.50".to_string(),
    }
}

fn by_kind(kind: PageKind) -> Vec<Op> {
    let h = History { mem: VecDeque::from([25]), net_rx: VecDeque::from([7]), ..History::default() };
    render_page(kind, &stats(vec![]), h, node())
}

#[test]
fn kinds_stand_for_their_pages() {
    let first = |kind| lines(&by_kind(kind))[0].1.clone();
    assert_eq!(first(PageKind::Cpus), "C*");
    assert_eq!(first(PageKind::Temps), "no temp sensors");
    assert_eq!(first(PageKind::Mem), "R");
    assert_eq!(first(PageKind::Disk), "D");
    assert_eq!(first(PageKind::Network), "I");
    assert_eq!(first(PageKind::Warnings), "DISK 91% FULL");
    assert_eq!(lines(&by_kind(PageKind::Proxmox))[2].1, "1/2");
    assert_eq!(lines(&by_kind(PageKind::Proxmox)).last().unwrap().1, "0.50");
    assert_eq!(first(PageKind::UctronicsCpu), "CPU:");
    assert_eq!(first(PageKind::UctronicsRam), "RAM:");
    assert_eq!(first(PageKind::UctronicsTemp), "TEMP:");
    assert_eq!(first(PageKind::UctronicsDisk), "DISK:");
}

#[test]
fn only_the_warnings_page_hides() {
    let kinds = vec![PageKind::Warnings, PageKind::Cpus, PageKind::Proxmox];
    let clear = Stats::new(0, vec![], None, (0, 0), (0, 0), 0);
    assert_eq!(wanted_pages(&kinds, &clear), vec![false, true, true]);
    assert_eq!(wanted_pages(&kinds, &stats(vec![])), vec![true, true, true]);
    assert!(wanted_pages(&vec![], &clear).is_empty());
}

#[test]
fn scaled_text_of_any_width() {
    let words = "a line of text that is far wider than the panel";
    for x in [0, -100, -160, -263] {
        let mut plain = rack_panel::framebuffer::FrameBuffer::new();
        plain.draw_panel(&vec![Op::Text {
            font: Font::Medium,
            text: words.to_string(),
            x,
            y: 5,
            color: RED,
        }]);
        let mut ops = vec![];
        draw_scaled_text(&mut ops, words, Font::Medium, x, 5, 1, RED);
        let mut scaled = rack_panel::framebuffer::FrameBuffer::new();
        scaled.draw_panel(&ops);
        for y in 0..80u16 {
            for col in 0..160u16 {
                assert_eq!(scaled.pixel(col, y), plain.pixel(col, y), "{x} {col} {y}");
            }
        }
    }
    let mut ops = vec![];
    draw_scaled_text(&mut ops, "", Font::Medium, 0, 0, 2, RED);
    assert!(ops.is_empty());
}

#[test]
fn tall_graphs_of_counts() {
    let g = Graph { x: 0, y: 0, width: 2, height: 1_000_000_000 };
    let mut ops = vec![];
    draw_sparkline_scaled(&mut ops, &VecDeque::from([25, 100]), g, 50, RED);
    assert_eq!(
        fills(&ops),
        vec![(1, 0, 1, 1_000_000_000, RED), (0, 750_000_000, 1, 250_000_000, RED)]
    );
}
