use rack_panel::host::{
    c_string_len, fqdn, header_text, hostname, ip_address, is_whole_disk, kernel_hostname,
    ops_delta, physical_net_totals, proxmox_vms, read_disk_ops, statvfs_used_total,
    throttled_flags, uptime_text, vm_ids,
};
use rack_panel::text::chars_of;

#[test]
fn whole_disks() {
    for yes in ["sda", "vdb", "hdc", "nvme0n1", "mmcblk0", "sd"] {
        assert!(is_whole_disk(&chars_of(yes)), "{yes}");
    }
    for no in ["sda1", "nvme0n1p2", "mmcblk0p1", "loop0", "dm-0", "zd0", "", "s"] {
        assert!(!is_whole_disk(&chars_of(no)), "{no}");
    }
}

#[test]
fn disk_operations_are_summed_over_whole_disks() {
    let text = "   8       0 sda 100 0 0 0 50 0 0\n   8       1 sda1 90 0 0 0 40 0 0\n 259 0 nvme0n1 7 1 1 1 3\n short 1 sdb 5\n 8 2 sdc x 0 0 0 9\n";
    assert_eq!(read_disk_ops(text), Some(169));
    assert_eq!(read_disk_ops(""), Some(0));
    let huge = "8 0 sda 18446744073709551615 0 0 0 1";
    assert_eq!(read_disk_ops(huge), None);
}

#[test]
fn operations_since_the_last_reading() {
    assert_eq!(ops_delta(Some(10), Some(25)), 15);
    assert_eq!(ops_delta(Some(25), Some(10)), 0);
    assert_eq!(ops_delta(None, Some(10)), 0);
    assert_eq!(ops_delta(Some(10), None), 0);
}

#[test]
fn filesystem_figures() {
    assert_eq!(statvfs_used_total(4096, 1000, 250), (750 * 4096, 1000 * 4096));
    assert_eq!(statvfs_used_total(4096, 10, 25), (0, 40_960));
}

#[test]
fn only_physical_interfaces_count() {
    let list = vec![
        ("eth0".to_string(), 10, 1),
        ("enp3s0".to_string(), 20, 2),
        ("wlan0".to_string(), 40, 4),
        ("vmbr0".to_string(), 500, 500),
        ("tap100i0".to_string(), 500, 500),
        ("lo".to_string(), 500, 500),
    ];
    assert_eq!(physical_net_totals(&list), Some((70, 7)));
    assert_eq!(physical_net_totals(&vec![]), Some((0, 0)));
    let wide = vec![("eth0".to_string(), u64::MAX, 0), ("eth1".to_string(), 1, 0)];
    assert_eq!(physical_net_totals(&wide), None);
    let (a, b) = (list[..2].to_vec(), list[2..].to_vec());
    let (ta, tb) = (physical_net_totals(&a).unwrap(), physical_net_totals(&b).unwrap());
    assert_eq!((ta.0 + tb.0, ta.1 + tb.1), (70, 7));
}

#[test]
fn host_names() {
    assert_eq!(kernel_hostname(Some(" rack1.example.com\n"), None), "rack1.example.com");
    assert_eq!(kernel_hostname(None, Some("pi")), "pi");
    assert_eq!(kernel_hostname(None, Some("")), "unknown");
    assert_eq!(kernel_hostname(None, None), "unknown");
    assert_eq!(c_string_len(b"pi\0\0"), 2);
    assert_eq!(c_string_len(b"pi"), 2);
    assert_eq!(hostname("rack1.example.com"), "rack1");
    assert_eq!(hostname("rack1"), "rack1");
    assert_eq!(hostname(""), "");
}

#[test]
fn qualified_host_names() {
    let hosts = "127.0.0.1 localhost # rack1.commented.out\n10.0.0.5 rack10.example.com rack1.example.com rack1\n";
    assert_eq!(fqdn("rack1", Some(hosts)), "rack1.example.com");
    assert_eq!(fqdn("rack2", Some(hosts)), "rack2");
    assert_eq!(fqdn("rack1", None), "rack1");
    assert_eq!(fqdn("a.b", Some(hosts)), "a.b");
    assert_eq!(fqdn("rack1", Some("rack1.first.word x\n")), "rack1");
}

#[test]
fn addresses_and_header() {
    assert_eq!(ip_address(Some("10.0.0.5".to_string())), "10.0.0.5");
    assert_eq!(ip_address(None), "xxx.xxx.xxx.xxx");
    assert_eq!(header_text("10.0.0.5", "rack1"), "10.0.0.5 - rack1");
}

#[test]
fn throttling_bits() {
    assert_eq!(throttled_flags(Some("50005\n")), 0x50005);
    assert_eq!(throttled_flags(Some("0x0x8\n")), 8);
    assert_eq!(throttled_flags(Some("junk")), 0);
    assert_eq!(throttled_flags(Some("100000000")), 0);
    assert_eq!(throttled_flags(None), 0);
}

#[test]
fn uptimes() {
    assert_eq!(uptime_text(4 * 86_400 + 3 * 3600 + 59), "4d3h");
    assert_eq!(uptime_text(7 * 3600 + 12 * 60), "7h12m");
    assert_eq!(uptime_text(42 * 60 + 59), "42m");
    assert_eq!(uptime_text(0), "0m");
    assert_eq!(uptime_text(86_400), "1d0h");
}

#[test]
fn guests() {
    let names = vec!["100.conf".to_string(), "101.conf.tmp".to_string(), "102.conf".to_string()];
    assert_eq!(vm_ids(&names), vec!["100".to_string(), "102".to_string()]);
    let some = proxmox_vms(true, &vec![true, false, true]).unwrap();
    assert_eq!((some.running, some.total), (2, 3));
    let none = proxmox_vms(true, &vec![]).unwrap();
    assert_eq!((none.running, none.total), (0, 0));
    assert!(proxmox_vms(false, &vec![true]).is_none());
}
