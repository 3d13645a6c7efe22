use rack_panel::rotation::{
    wants_sampler, PageKind, PageMode, Rotation, Shift, Stage,
};

const MS: u128 = 1_000_000;

#[test]
fn pages_that_need_history() {
    for kind in [
        PageKind::Cpus,
        PageKind::Temps,
        PageKind::Mem,
        PageKind::Disk,
        PageKind::Network,
        PageKind::Proxmox,
    ] {
        assert!(wants_sampler(&vec![PageKind::Warnings, kind]));
    }
    assert!(!wants_sampler(&vec![
        PageKind::Warnings,
        PageKind::UctronicsCpu,
        PageKind::UctronicsRam,
        PageKind::UctronicsTemp,
        PageKind::UctronicsDisk,
    ]));
    assert!(!wants_sampler(&vec![]));
}

#[test]
fn starts_on_the_first_page_that_wants_to_show() {
    let start = |active: Vec<bool>| Rotation::new(&active, PageMode::Cut, 1, 1).current();
    assert_eq!(start(vec![false, false, true, true]), 2);
    assert_eq!(start(vec![true, false]), 0);
    assert_eq!(start(vec![false, false]), 0);
}

#[test]
fn moves_on_to_pages_that_want_to_show() {
    let mut r = Rotation::new(&vec![true, false, true, false], PageMode::Cut, 1, 1);
    r.advance(&vec![true, false, true, false]);
    assert_eq!(r.current(), 2);
    r.advance(&vec![true, false, true, false]);
    assert_eq!(r.current(), 0);
    r.advance(&vec![false, false, false, false]);
    assert_eq!(r.current(), 0);
    r.advance(&vec![true, true, true, true]);
    assert_eq!(r.current(), 1);
    let mut solo = Rotation::new(&vec![false], PageMode::WipeUp, 1, 1);
    solo.advance(&vec![true]);
    assert_eq!(solo.current(), 0);
    assert!(matches!(solo.stage(), Stage::Hold { .. }));
}

#[test]
fn redraws_wait_for_the_header_one_frame() {
    let mut r = Rotation::new(&vec![true], PageMode::Cut, 1000 * MS, 7000 * MS);
    assert!(!r.refresh(true, 0));
    assert!(r.refresh(true, 20 * MS));
    r.refreshed(30 * MS);
    assert!(!r.refresh(false, 40 * MS));
    assert!(!r.refresh(false, 1030 * MS - 1));
    assert!(r.refresh(false, 1030 * MS));
    r.refreshed(1031 * MS);
    assert!(!r.refresh(true, 2031 * MS));
    assert!(r.refresh(false, 2040 * MS));
}

#[test]
fn time_runs_from_the_first_frame_on_the_panel() {
    let mut r = Rotation::new(&vec![true, true], PageMode::Cut, 1, 500 * MS);
    // The header changes in the first frame, so the page is not drawn yet.
    assert!(!r.refresh(true, 10 * MS));
    assert!(!r.flushed(150 * MS));
    assert_eq!(r.stage(), Stage::Hold { deadline: None, next_refresh: None, deferred: true });
    assert!(r.refresh(false, 160 * MS));
    r.refreshed(170 * MS);
    assert!(!r.flushed(800 * MS));
    assert!(!r.flushed(1300 * MS - 1));
    assert!(r.flushed(1300 * MS));
    r.advance(&vec![true, true]);
    assert_eq!(r.stage(), Stage::Hold { deadline: None, next_refresh: None, deferred: false });
    assert!(!r.flushed(2000 * MS));
}

#[test]
fn wipes_in_every_direction() {
    let cases = [
        (PageMode::WipeLeft, (-1, 0), 160, 40),
        (PageMode::WipeRight, (1, 0), 160, 40),
        (PageMode::WipeUp, (0, -1), 61, 14),
        (PageMode::WipeDown, (0, 1), 61, 14),
    ];
    for (mode, (dx, dy), limit, step) in cases {
        assert_eq!(mode.wipe_dir(), (dx, dy));
        let mut r = Rotation::new(&vec![true, true], mode, 1, 1);
        assert_eq!(r.shift(), None);
        r.advance(&vec![true, true]);
        let mut p = step;
        while p < limit {
            let want = Shift {
                out_x: dx * p,
                out_y: dy * p,
                in_x: dx * (p - limit),
                in_y: dy * (p - limit),
            };
            assert_eq!(r.shift(), Some((1, want)));
            assert_eq!(r.current(), 0);
            assert!(!r.refresh(false, 99));
            assert!(!r.flushed(99));
            r.step();
            p += step;
        }
        assert_eq!(r.shift(), None);
        assert_eq!(r.current(), 1);
    }
    assert_eq!(PageMode::Cut.wipe_dir(), (0, 0));
}
