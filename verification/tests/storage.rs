use rack_panel::storage::{
    json_str, json_u64, lvmthin_fields, parse_two_numbers, property, pvesh_vm_storage,
    storage_cfg_sections, storage_cfg_vm_storage, storage_queries, vg_used_total, vm_storage_choice,
    zfs_used_total, Backend,
};
use rack_panel::text::chars_of;

#[test]
fn storage_cfg_parse() {
    let cfg = "dir: local\n\tpath /var/lib/vz\n\tcontent iso,vztmpl\n\nlvmthin: local-lvm\n\tthinpool data\n\tvgname pve\n\tcontent rootdir,images\n";
    let sections = storage_cfg_sections(cfg);
    assert_eq!(sections.len(), 2);
    let (stype, name, props) = &sections[1];
    assert_eq!(stype, "lvmthin");
    assert_eq!(name, "local-lvm");
    let get = |key: &str| {
        props
            .iter()
            .find(|(k, _)| k == key)
            .map(|(_, v)| v.as_str())
    };
    assert_eq!(get("vgname"), Some("pve"));
    assert_eq!(get("thinpool"), Some("data"));
    assert!(get("content").unwrap().contains("images"));
    assert_eq!(sections[0].0, "dir");
}

fn cfg(text: &str) -> Vec<rack_panel::storage::Query> {
    storage_queries(&storage_cfg_sections(text))
}

#[test]
fn sections_keep_order_and_trim() {
    let s = storage_cfg_sections("  orphan line\nnot a section\nzfspool:  tank \n  pool   rpool/data \n\n\tsparse\n");
    assert_eq!(s.len(), 1);
    assert_eq!(s[0].0, "zfspool");
    assert_eq!(s[0].1, "tank");
    assert_eq!(
        s[0].2,
        vec![
            ("pool".to_string(), "rpool/data".to_string()),
            ("sparse".to_string(), String::new()),
        ]
    );
    assert_eq!(property(&s[0].2, "pool").map(|v| v.as_str()), Some("rpool/data"));
    assert!(property(&s[0].2, "vgname").is_none());
    assert!(storage_cfg_sections("").is_empty());
}

#[test]
fn queries_ask_the_local_backends() {
    let q = cfg("lvmthin: a\n content images\n vgname pve\n thinpool data\nzfspool: b\n content rootdir,images\n pool tank\nlvm: c\n content images\n vgname vg0\ndir: d\n content images\n");
    assert_eq!(q.len(), 3);
    assert_eq!(q[0].0, "a");
    assert!(matches!(&q[0].1, Backend::ThinPool { vg, pool } if vg == "pve" && pool == "data"));
    assert!(matches!(&q[1].1, Backend::Dataset { pool } if pool == "tank"));
    assert!(matches!(&q[2].1, Backend::VolumeGroup { vg } if vg == "vg0"));
}

#[test]
fn queries_skip_disabled_shared_and_other_content() {
    assert!(cfg("lvm: a\n content rootdir\n vgname v\n").is_empty());
    assert!(cfg("lvm: a\n vgname v\n").is_empty());
    assert!(cfg("lvm: a\n content images\n vgname v\n disable\n").is_empty());
    assert!(cfg("lvm: a\n content images\n vgname v\n shared 1\n").is_empty());
    assert!(cfg("lvmthin: a\n content images\n vgname v\n").is_empty());
    assert_eq!(cfg("lvm: a\n content images\n vgname v\n disable 0\n shared 0\n").len(), 1);
}

#[test]
fn largest_storage_is_shown_and_ties_go_to_the_last() {
    let q = cfg("lvm: a\n content images\n vgname a\nlvm: b\n content images\n vgname b\nlvm: c\n content images\n vgname c\n");
    let best = storage_cfg_vm_storage(&q, &vec![Some((1, 10)), Some((2, 30)), Some((3, 20))]);
    assert_eq!(best, Some(("b".to_string(), 2, 30)));
    let tie = storage_cfg_vm_storage(&q, &vec![Some((1, 30)), Some((2, 30)), Some((3, 20))]);
    assert_eq!(tie, Some(("b".to_string(), 2, 30)));
    assert_eq!(storage_cfg_vm_storage(&q, &vec![None, Some((0, 0)), None]), None);
}

#[test]
fn listing_of_storages() {
    let json = r#"[{"content":"iso","type":"lvm","storage":"x","total":99,"used":1},
        {"content":"images,rootdir","type":"lvmthin","storage":"local-lvm","active":1,"enabled":"1","shared":0,"used":25,"total":100},
        {"content":"images","type":"zfspool","storage":"tank","used":7,"total":50},
        {"content":"images","type":"dir","storage":"big","used":7,"total":5000},
        {"content":"images","type":"lvm","storage":"off","active":0,"used":7,"total":5000},
        {"content":"images","type":"lvm","storage":"nas","shared":"1","used":7,"total":5000}]"#;
    assert_eq!(pvesh_vm_storage(json), Some(("local-lvm".to_string(), 25, 100)));
    assert_eq!(pvesh_vm_storage("[]"), None);
    assert_eq!(
        pvesh_vm_storage(r#"{"content":"images","type":"btrfs","total":8}"#),
        Some(("vm".to_string(), 0, 8))
    );
    assert_eq!(pvesh_vm_storage(r#"{"content":"images","type":"btrfs","total":0}"#), None);
}

#[test]
fn flat_json_fields() {
    let obj = chars_of(r#""name":"pve","size": 12,"flag":"1","bad":x,"open":"never"#);
    assert_eq!(json_str(&obj, "name").map(|v| v.iter().collect::<String>()), Some("pve".to_string()));
    assert!(json_str(&obj, "size").is_none());
    assert!(json_str(&obj, "open").is_none());
    assert_eq!(json_u64(&obj, "size"), Some(12));
    assert_eq!(json_u64(&obj, "flag"), Some(1));
    assert_eq!(json_u64(&obj, "bad"), None);
    assert_eq!(json_u64(&obj, "none"), None);
}

#[test]
fn backend_answers() {
    assert_eq!(zfs_used_total("100\t300\n"), Some((100, 400)));
    assert_eq!(zfs_used_total("100"), None);
    assert_eq!(zfs_used_total("a b"), None);
    assert_eq!(parse_two_numbers(" 7 8 9"), Some((7, 8)));
    assert_eq!(vg_used_total("  1000 400\n"), Some((600, 1000)));
    assert_eq!(vg_used_total("400 1000"), Some((0, 400)));
    assert_eq!(vg_used_total(""), None);
    assert_eq!(lvmthin_fields("  5000 12.5 \n"), Some((5000, "12.5".to_string())));
    assert_eq!(lvmthin_fields("5000"), None);
    assert_eq!(lvmthin_fields("x 1"), None);
}

#[test]
fn the_configuration_stands_in_for_the_listing() {
    let a = Some(("a".to_string(), 1, 2));
    let b = Some(("b".to_string(), 3, 4));
    assert_eq!(vm_storage_choice(a.clone(), b.clone()), a);
    assert_eq!(vm_storage_choice(None, b.clone()), b);
    assert_eq!(vm_storage_choice(a.clone(), None), a);
    assert_eq!(vm_storage_choice(None, None), None);
}
