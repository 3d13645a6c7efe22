use rack_panel::numbers::{
    decimal_text, format_count, format_gib, format_rate, parse_number, parse_u64,
};
use rack_panel::text::chars_of;

fn float_gib(bytes: u64) -> String {
    let gib = bytes as f64 / (1u64 << 30) as f64;
    if gib < 10.0 {
        format!("{gib:.1}")
    } else {
        format!("{gib:.0}")
    }
}

fn float_scaled(v: f64) -> String {
    if v < 10.0 {
        format!("{v:.1}")
    } else {
        format!("{v:.0}")
    }
}

fn float_rate(n: u32) -> (String, &'static str) {
    let v = n as f64;
    if v < 1e3 {
        (format!("{n}"), "B/s")
    } else if v < 1e6 {
        (float_scaled(v / 1e3), "kB/s")
    } else if v < 1e9 {
        (float_scaled(v / 1e6), "MB/s")
    } else {
        (float_scaled(v / 1e9), "GB/s")
    }
}

fn float_count(n: u32) -> String {
    if n < 1_000 {
        format!("{n}")
    } else if n < 10_000 {
        format!("{:.1}k", n as f64 / 1000.0)
    } else if n < 1_000_000 {
        format!("{}k", n / 1000)
    } else {
        format!("{:.1}M", n as f64 / 1_000_000.0)
    }
}

#[test]
fn gibibytes() {
    assert_eq!(format_gib(0), "0.0");
    assert_eq!(format_gib(8_160_437_862), "7.6");
    assert_eq!(format_gib(16 << 30), "16");
    assert_eq!(format_gib(10 << 30), "10");
    assert_eq!(format_gib((10 << 30) - 1), "10.0");
}

#[test]
fn gibibytes_agree_with_doubles() {
    let mut seed = 1u64;
    for i in 0..20_000u64 {
        seed = seed.wrapping_mul(6364136223846793005).wrapping_add(1442695040888963407);
        let bytes = seed >> (i % 64);
        assert_eq!(format_gib(bytes), float_gib(bytes), "{bytes}");
        let near = (i << 30) / 20 + (seed & 3);
        assert_eq!(format_gib(near), float_gib(near), "{near}");
    }
    for bytes in [u64::MAX, u64::MAX - 1, 1 << 53, (1 << 53) + 1, (1 << 63) + 1025] {
        assert_eq!(format_gib(bytes), float_gib(bytes), "{bytes}");
    }
}

#[test]
fn rates() {
    assert_eq!(format_rate(14), ("14".to_string(), "B/s"));
    assert_eq!(format_rate(739_000), ("739".to_string(), "kB/s"));
    assert_eq!(format_rate(1_200_000), ("1.2".to_string(), "MB/s"));
    assert_eq!(format_rate(4_294_967_295), ("4.3".to_string(), "GB/s"));
}

#[test]
fn counts() {
    assert_eq!(format_count(999), "999");
    assert_eq!(format_count(1_200), "1.2k");
    assert_eq!(format_count(412_999), "412k");
    assert_eq!(format_count(1_300_000), "1.3M");
    assert_eq!(format_count(9_950), "9.9k");
}

#[test]
fn rates_and_counts_agree_with_doubles() {
    for n in 0..120_000u32 {
        assert_eq!(format_rate(n), float_rate(n), "{n}");
        assert_eq!(format_count(n), float_count(n), "{n}");
    }
    let mut seed = 7u32;
    for _ in 0..50_000 {
        seed = seed.wrapping_mul(1664525).wrapping_add(1013904223);
        assert_eq!(format_rate(seed), float_rate(seed), "{seed}");
        assert_eq!(format_count(seed), float_count(seed), "{seed}");
        let half = seed / 50_000 * 50_000;
        assert_eq!(format_rate(half), float_rate(half), "{half}");
        assert_eq!(format_count(half), float_count(half), "{half}");
    }
}

#[test]
fn reading_numbers() {
    assert_eq!(parse_u64(&chars_of("0")), Some(0));
    assert_eq!(parse_u64(&chars_of("+42")), Some(42));
    assert_eq!(parse_u64(&chars_of("18446744073709551615")), Some(u64::MAX));
    assert_eq!(parse_u64(&chars_of("18446744073709551616")), None);
    for bad in ["", "+", "-1", " 1", "1 ", "1.0", "0x1"] {
        assert_eq!(parse_u64(&chars_of(bad)), None, "{bad}");
        assert!(bad.parse::<u64>().is_err());
    }
    assert_eq!(parse_number(&chars_of("5aF"), 16, u32::MAX as u64), Some(0x5af));
    assert_eq!(parse_number(&chars_of("100000000"), 16, u32::MAX as u64), None);
}

#[test]
fn decimals() {
    for n in [0, 7, 10, 99, 100, 12_345, u64::MAX] {
        assert_eq!(decimal_text(n), format!("{n}"));
        assert_eq!(parse_u64(&chars_of(&decimal_text(n))), Some(n));
    }
}
