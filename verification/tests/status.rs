use rack_panel::color::{ORANGE, RED, WHITE, YELLOW};
use rack_panel::stats::{
    lowered, read_temps, sensor_temps, soc_of, status_color, status_color_for, temps_of,
    warnings_for, Component, Stats,
};

fn sensor(label: &str, temperature: Option<u8>) -> Component {
    Component { label: label.to_string(), temperature }
}

fn texts(flags: u32, cpu: Option<u8>, nvme: Option<u8>, disk: u8, mem: u8) -> Vec<(String, bool)> {
    warnings_for(flags, cpu, nvme, disk, mem).into_iter().map(|w| (w.text, w.severe)).collect()
}

#[test]
fn sensors_are_found_by_their_labels() {
    assert_eq!(
        read_temps(&vec![
            sensor("fan", Some(1)),
            sensor("CPU_Thermal temp1", Some(51)),
            sensor("cpu second", Some(99)),
            sensor("NVME Composite", Some(40)),
            sensor("nvme other", Some(44)),
        ]),
        (Some(51), Some(40))
    );
    assert_eq!(read_temps(&vec![sensor("Package id 0", Some(60))]), (Some(60), None));
    assert_eq!(read_temps(&vec![sensor("k10temp Tctl", Some(61))]), (Some(61), None));
    assert_eq!(read_temps(&vec![sensor("CORETEMP", Some(62))]), (Some(62), None));
    assert_eq!(read_temps(&vec![sensor("cpu", None), sensor("cpu1", Some(7))]), (Some(7), None));
    assert_eq!(
        read_temps(&vec![sensor("cpu", Some(7)), sensor("cpu nvme", Some(8))]),
        (Some(7), Some(8))
    );
    assert_eq!(read_temps(&vec![]), (None, None));
}

#[test]
fn mock_temperatures_only_fill_in_for_none() {
    let none: Vec<Component> = vec![];
    assert_eq!(sensor_temps(&none, Some((55, 42))), (Some(55), Some(42)));
    assert_eq!(sensor_temps(&none, None), (None, None));
    let one = vec![sensor("nvme", Some(30))];
    assert_eq!(sensor_temps(&one, Some((55, 42))), (None, Some(30)));
}

#[test]
fn healthy_hosts_have_no_warnings() {
    assert!(texts(0, Some(74), Some(74), 89, 94).is_empty());
    assert!(texts(0, None, None, 0, 0).is_empty());
}

#[test]
fn warnings_with_the_worst_first() {
    assert_eq!(
        texts(0x10004, Some(85), Some(75), 92, 95),
        vec![
            ("THROTTLED".to_string(), true),
            ("CPU HOT 85\u{b0}".to_string(), true),
            ("UNDERVOLTAGE SINCE BOOT".to_string(), false),
            ("NVME WARM 75\u{b0}".to_string(), false),
            ("DISK 92% FULL".to_string(), false),
            ("RAM 95%".to_string(), false),
        ]
    );
    assert_eq!(
        texts(0x2000a, None, None, 95, 0),
        vec![
            ("FREQ CAPPED".to_string(), true),
            ("SOFT TEMP LIMIT".to_string(), true),
            ("DISK 95% FULL".to_string(), true),
        ]
    );
}

#[test]
fn status_light() {
    assert_eq!(status_color_for(Some(64), Some(20), 79, 0), WHITE);
    assert_eq!(status_color_for(Some(65), None, 0, 0), YELLOW);
    assert_eq!(status_color_for(Some(20), Some(75), 0, 0), ORANGE);
    assert_eq!(status_color_for(None, Some(85), 0, 0), RED);
    assert_eq!(status_color_for(None, None, 80, 0), YELLOW);
    assert_eq!(status_color_for(None, None, 90, 0), ORANGE);
    assert_eq!(status_color_for(None, None, 95, 0), RED);
    assert_eq!(status_color_for(None, None, 0, 0x8), RED);
    assert_eq!(status_color_for(None, None, 0, 0x80000), YELLOW);
    assert_eq!(status_color_for(Some(75), None, 0, 0x80000), ORANGE);
}

#[test]
fn red_goes_with_severe_warnings() {
    for cpu in [None, Some(10), Some(74), Some(84), Some(85), Some(200)] {
        for disk in [0, 89, 94, 95, 100] {
            for flags in [0u32, 1, 8, 0x10, 0x10000, 0x80000] {
                let severe = texts(flags, cpu, None, disk, 0).iter().any(|w| w.1);
                assert_eq!(severe, status_color_for(cpu, None, disk, flags) == RED);
            }
        }
    }
}

#[test]
fn readings_of_the_host() {
    let s = Stats::new(
        37,
        vec![sensor("gpu", Some(44)), sensor("CPU", Some(66)), sensor("nvme", Some(35))],
        None,
        (3, 4),
        (91, 100),
        0,
    );
    assert!(s.is_wf());
    assert_eq!(s.cpu_percent(), 37);
    assert_eq!(s.memory_percent(), 75);
    assert_eq!(s.memory_used_total(), (3, 4));
    assert_eq!(s.disk_percent(), 91);
    assert_eq!(s.disk_used_total(), (91, 100));
    assert_eq!(s.temperature_celsius(), 66);
    assert_eq!(s.temps_now(), (Some(66), Some(35)));
    assert_eq!(s.warnings().len(), 1);
    assert_eq!(status_color(&s), ORANGE);
    let bare = Stats::new(0, vec![], None, (0, 0), (0, 0), 0);
    assert_eq!(bare.temperature_celsius(), 0);
    assert_eq!(bare.memory_percent(), 0);
    assert_eq!(bare.disk_percent(), 0);
    let first = Stats::new(0, vec![sensor("acpi", Some(31))], None, (0, 0), (0, 0), 0);
    assert_eq!(first.temperature_celsius(), 31);
    let second = vec![sensor("wifi", None), sensor("acpitz", Some(40))];
    assert_eq!(Stats::new(0, second, None, (0, 0), (0, 0), 0).temperature_celsius(), 40);
    let mute = vec![sensor("wifi", None), sensor("acpitz", None)];
    assert_eq!(Stats::new(0, mute, None, (0, 0), (0, 0), 0).temperature_celsius(), 0);
    let silent = Stats::new(0, vec![sensor("x", Some(31)), sensor("cpu", None)], None, (0, 0), (0, 0), 0);
    assert_eq!(silent.temperature_celsius(), 0);
    assert!(!Stats::new(0, vec![], None, (u64::MAX, 1), (0, 0), 0).is_wf());
}

#[test]
fn labels_in_lower_case() {
    let list = vec![sensor("CPU \u{c4}", Some(9)), sensor("NVMe", None)];
    let lower = lowered(&list);
    assert_eq!(lower[0].label, "cpu \u{e4}");
    assert_eq!(lower[1].label, "nvme");
    assert_eq!((lower[0].temperature, lower[1].temperature), (Some(9), None));
    assert_eq!(temps_of(&lower), (Some(9), None));
    assert_eq!(temps_of(&list), (None, None));
    assert_eq!(soc_of(&lower), 9);
    assert_eq!(soc_of(&vec![sensor("a", Some(3)), sensor("x cpu", Some(4))]), 4);
    assert_eq!(soc_of(&vec![sensor("a", Some(3)), sensor("CPU", Some(4))]), 3);
}
