use rack_panel::framebuffer::{Band, FrameBuffer, Op};
use rack_panel::st7735::{bus_time, Lcd, Transaction};

/// A panel behind a bridge that follows the register protocol.
struct Panel {
    memory: Vec<u16>,
    window: (usize, usize, usize, usize),
    bursting: bool,
    stream: Vec<u8>,
}

impl Panel {
    fn new(fill: u16) -> Self {
        Panel { memory: vec![fill; 162 * 132], window: (0, 0, 0, 0), bursting: false, stream: vec![] }
    }

    fn take(&mut self, tx: &Transaction) {
        match tx {
            Transaction::Command { register: 0x2a, high, low } => {
                self.window.0 = *high as usize;
                self.window.1 = *low as usize;
            }
            Transaction::Command { register: 0x2b, high, low } => {
                self.window.2 = *high as usize;
                self.window.3 = *low as usize;
            }
            Transaction::Command { register: 0x2c, .. } => self.stream.clear(),
            Transaction::Command { register: 0x01, low, .. } => self.bursting = *low == 1,
            Transaction::Command { register: 0x03, .. } => {
                let (x0, x1, y0, _) = self.window;
                for (k, pair) in self.stream.chunks_exact(2).enumerate() {
                    let w = x1 - x0 + 1;
                    let at = (y0 + k / w) * 162 + x0 + k % w;
                    self.memory[at] = u16::from_be_bytes([pair[0], pair[1]]);
                }
            }
            Transaction::Command { .. } => panic!("unknown register"),
            Transaction::Chunk { bytes } => {
                assert!(self.bursting);
                assert!(bytes.len() <= 160);
                self.stream.extend_from_slice(bytes);
                assert!(self.stream.len() <= 5120);
            }
        }
    }

    fn pixel(&self, x: usize, y: usize) -> u16 {
        self.memory[(y + 24) * 162 + x]
    }
}

fn nanos(tx: &Transaction) -> u64 {
    (tx.to_bytes().len() as u64 + 1) * 22_500 + tx.pause_micros() * 1000
}

#[test]
fn a_small_block_goes_out_as_one_session() {
    let mut lcd = Lcd::new();
    lcd.blit(2, 3, 2, 1, &[0x1234, 0xabcd]);
    let sent: Vec<Vec<u8>> = lcd.into_transactions().iter().map(|t| t.to_bytes()).collect();
    assert_eq!(
        sent,
        vec![
            vec![0x2a, 2, 3],
            vec![0x2b, 27, 27],
            vec![0x2c, 0, 0],
            vec![0x03, 0, 1],
            vec![0x01, 0, 1],
            vec![0x12, 0x34, 0xab, 0xcd],
            vec![0x01, 0, 0],
            vec![0x03, 0, 1],
        ]
    );
}

#[test]
fn pauses_follow_the_kind_of_write() {
    assert_eq!(Transaction::Command { register: 3, high: 0, low: 1 }.pause_micros(), 10);
    assert_eq!(Transaction::Chunk { bytes: vec![1, 2] }.pause_micros(), 700);
}

#[test]
fn tall_blocks_are_split_and_land() {
    let pixels: Vec<u16> = (0..160 * 40).map(|i| (i * 7 + 1) as u16).collect();
    let mut lcd = Lcd::new();
    lcd.blit(0, 20, 160, 40, &pixels);
    let mut panel = Panel::new(9);
    let writes = lcd.into_transactions();
    let windows = writes
        .iter()
        .filter(|t| matches!(t, Transaction::Command { register: 0x2b, .. }))
        .count();
    assert_eq!(windows, 3);
    for tx in &writes {
        panel.take(tx);
    }
    for y in 0..80 {
        for x in 0..160 {
            let want = if (20..60).contains(&y) { pixels[(y - 20) * 160 + x] } else { 9 };
            assert_eq!(panel.pixel(x, y), want);
        }
    }
}

#[test]
fn flushing_brings_the_panel_up_to_date() {
    let mut fb = FrameBuffer::new();
    let mut panel = Panel::new(0x5555);
    for round in 0..3u16 {
        fb.draw_panel(&vec![
            Op::Fill { x: 3, y: 5 + round as i32 * 11, w: 20, h: 2, color: 0x1111 * (round + 1) },
            Op::Fill { x: -4, y: 60, w: 9, h: 40, color: 0x0f0f + round },
        ]);
        for band in fb.flush() {
            let mut lcd = Lcd::new();
            lcd.blit_band(&fb, band);
            for tx in lcd.into_transactions() {
                panel.take(&tx);
            }
            fb.commit(band);
        }
        for y in 0..80u16 {
            for x in 0..160u16 {
                assert_eq!(panel.pixel(x as usize, y as usize), fb.pixel(x, y));
            }
        }
        assert!(fb.flush().is_empty());
    }
}

#[test]
fn time_on_the_bus() {
    assert_eq!(bus_time(160, 80), 25_600 * 22_500 + 160 * 722_500 + 5 * 700_000);
    for h in [0u16, 1, 15, 16, 17, 61, 80] {
        let mut lcd = Lcd::new();
        lcd.blit(0, 0, 160, h, &vec![0; 160 * h as usize]);
        let total: u64 = lcd.into_transactions().iter().map(nanos).sum();
        assert_eq!(bus_time(160, h), total);
    }
    assert_eq!(bus_time(1, 1), 2 * 22_500 + 722_500 + 700_000);
}

#[test]
fn bands_of_a_frame() {
    let fb = FrameBuffer::new();
    assert_eq!(fb.flush(), vec![Band { start: 0, rows: 80 }]);
    assert_eq!(fb.band_pixels(Band { start: 3, rows: 2 }).len(), 320);
}

#[test]
fn the_first_flush_sends_everything() {
    for color in [0u16, 1, 0xffff] {
        let mut fb = FrameBuffer::new();
        fb.draw_panel(&vec![Op::Fill { x: 0, y: 0, w: 160, h: 80, color }]);
        assert_eq!(fb.flush(), vec![Band { start: 0, rows: 80 }]);
        fb.commit(Band { start: 0, rows: 30 });
        assert_eq!(fb.flush(), vec![Band { start: 30, rows: 50 }]);
    }
}
