//! The command line tools.
use tape_rs::catalog::db::{migration, resolve_path, CatalogPlace, SCHEMA_VERSION};
use tape_rs::catalog::query::{CapacitySnapshot, FileExtentRow, FileHit, VolumeRow};
use tape_rs::catalog::sync::{
    read_barcode, sync_rows, sync_stats, CatalogFile, Extent, VolumeFacts,
};
use tape_rs::changer::commands::{
    parse_element_status_data, ChangerAction, MediumChanger,
};
use tape_rs::changer::element::{ElementAddressMap, ElementType};
use tape_rs::cli::changer::{
    address_map_lines, drive_reading, element_line, is_sg_name, move_target, parse_addr,
    slot_to_addr, verify_probe_failed,
};
use tape_rs::cli::inquiry::{
    build_libraries, parse_hctl, Hctl, InquiryInfo, SgEntry, PT_CHANGER, PT_TAPE,
};
use tape_rs::cli::ltfs::{check_mkltfs, file_line, parse_xattrs, verify_result};
use tape_rs::cli::report::{device_line, group_by_sysfs_target, group_line, print_library};
use tape_rs::cli::tables::{
    extent_header, extent_line, hit_header, hit_line, sync_line, volume_header, volume_line,
};
use tape_rs::cli::tape::{
    check_format, density_lines, hex_dump, limit_label, parse_densities, parse_page, shows_alerts,
    space_mode, spaced, SpaceMode,
};
use tape_rs::error::TapeError;
use tape_rs::strmap::StrMap;

#[test]
fn tape_commands_are_checked() {
    assert_eq!(space_mode("eod").unwrap(), SpaceMode::EndOfData);
    assert_eq!(
        space_mode("x").unwrap_err().message(),
        TapeError::MoveFailed {
            reason: "未知的 space 模式 'x'（可选 block / filemark / eod）".into()
        }
        .message()
    );
    assert_eq!(spaced(SpaceMode::Block, -3), "已跳过 -3 个 block");
    assert_eq!(spaced(SpaceMode::Filemark, i32::MIN), "已跳过 -2147483648 个 filemark");
    assert!(check_format("/dev/nst0", true).is_ok());
    assert!(matches!(check_format("/dev/nst0", false), Err(TapeError::Refused { .. })));
    assert_eq!(limit_label(0), "无上限");
    assert_eq!(limit_label(10), "10 字节");
    assert_eq!(parse_page("0x2E").unwrap(), 0x2e);
    assert_eq!(parse_page("2e").unwrap(), 0x2e);
    match parse_page("0x100") {
        Err(TapeError::MoveFailed { reason }) => {
            let std = u8::from_str_radix("100", 16).unwrap_err();
            assert_eq!(reason, format!("page code '0x100' 解析失败: {}", std));
        }
        other => panic!("{:?}", other),
    }
    assert!(shows_alerts(0x2e, false));
    assert!(!shows_alerts(0x2e, true));
}

#[test]
fn bytes_are_dumped_sixteen_a_line() {
    let b: Vec<u8> = (0..18).collect();
    assert_eq!(
        hex_dump(&b),
        vec![
            "  0000: 00 01 02 03 04 05 06 07 08 09 0a 0b 0c 0d 0e 0f".to_string(),
            "  0010: 10 11".to_string(),
        ]
    );
    assert!(hex_dump(&[]).is_empty());
}

#[test]
fn densities_are_read() {
    let mut d = vec![0u8, 54, 0, 0];
    let mut one = vec![0u8; 52];
    one[0] = 0x5e;
    one[1] = 0x5c;
    one[2] = 0xa0;
    one[5..8].copy_from_slice(&[0, 1, 2]);
    one[8..10].copy_from_slice(&[1, 0]);
    one[10..14].copy_from_slice(&[0, 0xb7, 0x1b, 0]);
    one[14..22].copy_from_slice(b"LTO-CVE ");
    one[22..30].copy_from_slice(b"U-832   ");
    one[30..52].copy_from_slice(b"Ultrium 8/32T         ");
    d.extend_from_slice(&one);
    let v = parse_densities(&d).unwrap();
    assert_eq!(v.len(), 1);
    assert_eq!(v[0].bits_per_mm, 258);
    assert_eq!(v[0].tracks, 256);
    assert_eq!(v[0].capacity, 12_000_000);
    let (a, b) = density_lines(&v[0]);
    assert_eq!(a, "  - code=0x5e secondary=0x5c wrtok=true dup=false default=true");
    assert_eq!(
        b,
        "    bits/mm=258 tracks=256 capacity=12000000MB vendor=LTO-CVE desc=U-832 name=Ultrium 8/32T"
    );
    assert!(matches!(
        parse_densities(&[1, 2]),
        Err(TapeError::InvalidResponse { expected: 4, actual: 2 })
    ));
}

#[test]
fn volume_commands_are_checked() {
    assert!(check_mkltfs(true).is_ok());
    assert!(matches!(check_mkltfs(false), Err(TapeError::Refused { .. })));
    let v = parse_xattrs(&vec!["a=1".into(), "b=c=d".into()]).unwrap();
    assert_eq!(v[1], ("b".to_string(), "c=d".to_string()));
    match parse_xattrs(&vec!["a=1".into(), "=x".into(), "y".into()]) {
        Err(TapeError::Ltfs(m)) => assert_eq!(m, "--xattr 需要 KEY=VALUE 形式: =x"),
        other => panic!("{:?}", other),
    }
    assert!(verify_result(0).is_ok());
    assert!(matches!(verify_result(2), Err(TapeError::Ltfs(m)) if m == "2 个文件哈希不一致"));
    assert_eq!(file_line("/a", 12, None), format!("  {:>12}  {}", 12, "/a"));
    assert_eq!(
        file_line("/l", 0, Some("t")),
        format!("  {:>12}  {} -> {}", "symlink", "/l", "t")
    );
}

fn entry(path: &str, hctl: Option<(u32, u32, u32, u32)>, t: u8) -> SgEntry {
    SgEntry {
        path: path.into(),
        hctl: hctl.map(|(h, c, t, l)| Hctl { host: h, channel: c, target: t, lun: l }),
        inquiry: Ok(InquiryInfo {
            peripheral_type: t,
            vendor: "IBM".into(),
            product: "X".into(),
            revision: "1.0".into(),
            serial: Some(format!("S{}", t)),
        }),
        lu_id: None,
    }
}

#[test]
fn a_library_is_reported() {
    let libs = build_libraries(&vec![
        entry("/dev/sg1", Some((1, 0, 0, 0)), PT_TAPE),
        entry("/dev/sg2", Some((1, 0, 0, 1)), PT_CHANGER),
    ]);
    assert_eq!(libs.len(), 1);
    assert_eq!(
        print_library(1, &libs[0]),
        vec![
            "┌─ 带库 #1   IBM X   序列号 S8".to_string(),
            "│".to_string(),
            "│  驱动器   IBM X".to_string(),
            "│    固件版本：1.0".to_string(),
            "│    序列号：S1".to_string(),
            "│    设备：/dev/sg1".to_string(),
            "│    控制路径：/dev/sg2".to_string(),
            "│".to_string(),
            "│  换带器   IBM X".to_string(),
            "│    固件版本：1.0".to_string(),
            "│    序列号：S8".to_string(),
            "└─".to_string(),
        ]
    );
    let others = vec![
        entry("/dev/sg3", Some((2, 0, 1, 1)), 0),
        entry("/dev/sg4", None, 0x0d),
        entry("/dev/sg5", Some((2, 0, 1, 0)), 5),
    ];
    assert_eq!(group_by_sysfs_target(&others), vec![1, 2, 0]);
    assert_eq!(group_line(2, &others[0].hctl), "[#2] host2:channel0:target1");
    assert_eq!(group_line(1, &None), "[#1] (sysfs 拓扑未知)");
    assert_eq!(device_line(&others[1]), "  /dev/sg4  (LUN ?)  SES 机箱 — IBM X rev 1.0");
    let mut broken = entry("/dev/sg6", Some((2, 0, 1, 3)), 0);
    broken.inquiry = Err("EIO".into());
    assert_eq!(device_line(&broken), "  /dev/sg6  (LUN 3)  INQUIRY 失败: EIO");
    assert_eq!(
        parse_hctl("2:0:1:3"),
        Some(Hctl { host: 2, channel: 0, target: 1, lun: 3 })
    );
    assert_eq!(parse_hctl("2:0:1"), None);
}

#[test]
fn catalog_tables_are_aligned() {
    let v = VolumeRow {
        uuid: "u".into(),
        barcode: None,
        generation: 3,
        blocksize: 524288,
        last_sync: "now".into(),
        file_count: 2,
        total_size: 2048,
        total_capacity: Some(4096),
        remaining_capacity: Some(1024),
    };
    let line = |a: &str, b: &str, c: &str, d: &str, e: &str, f: &str, g: &str, h: &str| {
        format!(
            "{:<8}  {:<36}  {:>6}  {:>10}  {:>10}  {:>8}  {:>8}  {}",
            a, b, c, d, e, f, g, h
        )
    };
    assert_eq!(
        volume_header(),
        line("BARCODE", "UUID", "GEN", "FILES", "SIZE", "USED", "TOTAL", "LAST SYNC")
    );
    assert_eq!(volume_line(&v), line("-", "u", "3", "2", "2.0K", "3.0K", "4.0K", "now"));
    let h = FileHit {
        volume_uuid: "u".into(),
        barcode: Some("T1".into()),
        path: "/a".into(),
        size: 5,
        mtime: None,
    };
    assert_eq!(hit_line(&h), format!("{:<8}  {:>12}  {:<20}  {}", "T1", "5", "-", "/a"));
    assert!(hit_header().starts_with("BARCODE "));
    let f = FileExtentRow {
        path: "/a".into(),
        size: 5,
        file_uid: 2,
        partition: 'b',
        start_block: 9,
        byte_count: 5,
        file_offset: 0,
    };
    assert_eq!(extent_line(&f), format!("{:>12}  {:>4}  {:>10}  {}", "5", "b", "9", "/a"));
    assert!(extent_header().ends_with("PATH"));
}

#[test]
fn a_catalog_opens_at_its_place_and_version() {
    assert!(migration(SCHEMA_VERSION).unwrap().is_none());
    assert!(migration(0).unwrap().unwrap().create_tables);
    assert!(migration(SCHEMA_VERSION + 1).is_err());
    assert!(matches!(
        resolve_path(Some("/x"), Some("/y"), None, None).unwrap(),
        CatalogPlace::At(p) if p == "/x"
    ));
    assert!(matches!(
        resolve_path(None, Some("/y"), None, None).unwrap(),
        CatalogPlace::At(p) if p == "/y"
    ));
    assert!(matches!(
        resolve_path(None, None, None, Some("/home/u")).unwrap(),
        CatalogPlace::UnderHome(p) if p == "/home/u"
    ));
    assert!(matches!(resolve_path(None, None, None, None), Err(TapeError::Catalog(_))));
}

#[test]
fn a_volume_is_put_into_the_catalog_file_by_file() {
    let e = |b: u64| Extent {
        partition: 'b',
        start_block: b,
        byte_offset: 0,
        byte_count: 5,
        file_offset: 0,
    };
    let files = vec![
        CatalogFile {
            path: "/a".into(),
            file_uid: 2,
            length: 10,
            modify_time: "m".into(),
            creation_time: String::new(),
            readonly: false,
            extents: vec![e(1), e(2)],
        },
        CatalogFile {
            path: "/b".into(),
            file_uid: 3,
            length: 0,
            modify_time: String::new(),
            creation_time: "c".into(),
            readonly: true,
            extents: vec![],
        },
    ];
    let facts = VolumeFacts {
        uuid: "u".into(),
        ltfs_version: "2.4.0".into(),
        generation: 3,
        blocksize: 524288,
        index_update: "t".into(),
    };
    let cap = Some(CapacitySnapshot { total: 100, remaining: 40 });
    let rows = sync_rows(&facts, &Some("T1".into()), cap, "now", &files);
    assert_eq!(rows.files.len(), 2);
    assert_eq!(rows.files[0].mtime, Some("m".into()));
    assert_eq!(rows.files[0].ctime, None);
    assert_eq!(rows.extents.len(), 2);
    assert_eq!((rows.extents[1].file_uid, rows.extents[1].seq), (2, 1));
    assert_eq!(rows.volume.total_capacity, Some(100));
    let s = sync_stats(&rows, cap, true);
    assert_eq!(
        sync_line(&s),
        "已同步: uuid=u barcode=T1 gen=3 files=2 extents=2 used=60/100（覆盖旧快照）"
    );
    assert_eq!(read_barcode(b"T1  "), Some("T1".to_string()));
}

fn map() -> ElementAddressMap {
    ElementAddressMap {
        transport_start: 0,
        transport_count: 1,
        storage_start: 0x3e9,
        storage_count: 35,
        ie_start: 0x65,
        ie_count: 5,
        dt_start: 1,
        dt_count: 2,
    }
}

#[test]
fn addresses_are_read_and_checked() {
    assert_eq!(parse_addr("0x3e9").unwrap(), 0x3e9);
    assert_eq!(parse_addr("12").unwrap(), 12);
    match parse_addr("zz") {
        Err(TapeError::MoveFailed { reason }) => {
            let std = u16::from_str_radix("zz", 10).unwrap_err();
            assert_eq!(reason, format!("无法解析地址 'zz': {}", std));
        }
        other => panic!("{:?}", other),
    }
    assert_eq!(slot_to_addr(&map(), 1).unwrap(), 0x3e9);
    assert!(slot_to_addr(&map(), 0).is_err());
    assert!(slot_to_addr(&map(), 36).is_err());
    assert!(matches!(ElementType::from_u8(4), Some(ElementType::DataTransfer)));
    assert!(ElementType::from_u8(9).is_none());
    assert!(MediumChanger::new().read_all_status().is_err());
}

#[test]
fn element_reports_are_read() {
    // header: first element, two elements, byte count; one page of storage elements
    let mut d = vec![0, 0x10, 0, 2, 0, 0, 0, 32];
    d.extend_from_slice(&[2, 0, 0, 12, 0, 0, 0, 24]);
    d.extend_from_slice(&[0, 0x10, 1, 0, 0, 0, 0, 0, 0, 0x80, 0, 0x11]);
    d.extend_from_slice(&[0, 0x11, 0, 0, 0, 0, 0, 0, 0, 0, 0, 0]);
    let v = parse_element_status_data(&d).unwrap();
    assert_eq!(v.len(), 2);
    assert_eq!((v[0].address, v[0].full), (0x10, true));
    assert_eq!((v[1].address, v[1].full), (0x11, false));
    assert_eq!(v[0].element_type, ElementType::Storage);
    assert!(matches!(
        parse_element_status_data(&d[..7]),
        Err(TapeError::InvalidResponse { expected: 8, actual: 7 })
    ));
    // Descriptors that are too short to be read; where none fits into its page, none is read.
    for len in 1..4u8 {
        let mut d = vec![0, 0x10, 0, 2, 0, 0, 0, 14];
        d.extend_from_slice(&[2, 0, 0, len, 0, 0, 0, 6, 0, 0, 0, 0, 0, 0]);
        match parse_element_status_data(&d) {
            Err(TapeError::InvalidResponse { expected: 4, actual }) => {
                assert_eq!(actual, len as usize)
            }
            other => panic!("{:?}", other),
        }
        d[15] = 0;
        d.truncate(16);
        d[7] = 8;
        assert!(parse_element_status_data(&d).unwrap().is_empty());
    }
}

fn ready() -> MediumChanger {
    let mut c = MediumChanger::new();
    // header, no block descriptors, page 0x1d with the four ranges
    let mut d = vec![0u8; 255];
    d[8] = 0x1d;
    d[9] = 18;
    for (i, n) in [0u16, 1, 0x3e9, 35, 0x65, 5, 1, 2].iter().enumerate() {
        d[10 + 2 * i..12 + 2 * i].copy_from_slice(&n.to_be_bytes());
    }
    assert!(matches!(
        c.load_address_map(&d, 27),
        Err(TapeError::InvalidResponse { expected: 28, actual: 27 })
    ));
    assert_eq!(c.load_address_map(&d, 28).unwrap(), map());
    c
}

#[test]
fn the_changer_is_told_what_to_move() {
    let c = ready();
    assert_eq!(c.address_map(), Some(map()));
    assert!(matches!(c.read_all_status().unwrap(), ChangerAction::ReadStatus { .. }));
    assert!(matches!(
        c.move_medium(0x3e9, 1).unwrap(),
        ChangerAction::Move { transport: 0, source: 0x3e9, dest: 1, .. }
    ));
    assert!(matches!(
        c.exchange_medium(1, 2, 3).unwrap(),
        ChangerAction::Exchange { transport: 0, source: 1, first: 2, second: 3, .. }
    ));
    assert!(matches!(
        c.position_to_element(5).unwrap(),
        ChangerAction::Position { transport: 0, dest: 5, .. }
    ));
    assert!(matches!(c.import(0, 1).unwrap(), ChangerAction::Move { source: 0x65, .. }));
    assert!(matches!(c.export(1, 0).unwrap(), ChangerAction::Move { dest: 0x65, .. }));
    assert!(c.import(9, 1).is_err());
    assert!(c.import(0, 0).is_err());
    assert!(matches!(c.initialize_element_status(), ChangerAction::InitializeStatus { .. }));
    assert!(matches!(
        c.prevent_medium_removal(true),
        ChangerAction::PreventRemoval { prevent: true, .. }
    ));
    assert!(matches!(
        MediumChanger::address_map_request(),
        ChangerAction::SenseAddresses { .. }
    ));
    let none = MediumChanger::new();
    assert!(none.move_medium(1, 2).is_err());
    assert!(none.import(0, 0).is_err());
}

#[test]
fn moves_are_aimed_and_inventories_shown() {
    assert_eq!(move_target(&map(), Some(1), None).unwrap(), 0x3e9);
    assert_eq!(move_target(&map(), None, Some(0)).unwrap(), 1);
    assert!(move_target(&map(), None, None).is_err());
    assert!(move_target(&map(), None, Some(2)).is_err());
    assert!(matches!(verify_probe_failed(1, 2, "x"), TapeError::InconsistentState(_)));
    assert!(is_sg_name("sg12"));
    assert!(!is_sg_name("sg"));
    assert!(!is_sg_name("sgx"));
    assert!(address_map_lines(&map()).iter().any(|l| l.contains("0x03e9")));
    let cap = CapacitySnapshot { total: 4096, remaining: 1024 };
    assert!(drive_reading(1, Some("T1".into()), cap).is_some());
    assert!(drive_reading(8, Some("T1".into()), cap).is_none());
    assert!(drive_reading(1, None, cap).is_none());
    let mut now: StrMap<CapacitySnapshot> = StrMap::new();
    now.insert("8A0042".into(), cap);
    let none: StrMap<CapacitySnapshot> = StrMap::new();
    // The tag of a cartridge carries two characters more than its serial number.
    assert_eq!(
        element_line("D", &map(), Some(0x3e9), true, Some("8A0042L8"), &now, &none),
        "  D  <- Storage 1001  used=3.0K / total=4.0K (free 1.0K) [realtime]"
    );
    assert_eq!(
        element_line("S", &map(), None, true, Some("8A0042"), &none, &now),
        "  S  used=3.0K / total=4.0K (free 1.0K) [cached]"
    );
    assert_eq!(element_line("S", &map(), None, false, Some("8A0042"), &now, &none), "  S");
}

#[test]
fn errors_say_what_happened() {
    let all = vec![
        TapeError::Io("e".into()),
        TapeError::ScsiCommand { status: 2, sense_key: 5, asc: 0x24, ascq: 0 },
        TapeError::ReservationConflict { device: "sg1".into() },
        TapeError::Busy { device: "sg1".into() },
        TapeError::ScsiStatus { device: "sg1".into(), status: 0x28 },
        TapeError::ScsiHost(3),
        TapeError::ScsiDriver(4),
        TapeError::InconsistentState("x".into()),
        TapeError::NotReady("x".into()),
        TapeError::MoveFailed { reason: "x".into() },
        TapeError::Refused { reason: "x".into() },
        TapeError::InvalidResponse { expected: 4, actual: 2 },
        TapeError::Nix("x".into()),
        TapeError::Ltfs("x".into()),
        TapeError::Xml("x".into()),
        TapeError::XmlSource("x".into()),
        TapeError::Catalog("x".into()),
        TapeError::CatalogDb("x".into()),
    ];
    let texts: Vec<String> = all.iter().map(|e| e.message()).collect();
    assert!(texts.iter().all(|t| !t.is_empty()));
    assert!(texts[11].contains('4') && texts[11].contains('2'));
    assert!(all[2].ownership_lost());
    assert!(!all[1].ownership_lost());
}
