//! Reading device identities, and gathering devices into libraries.
use tape_rs::cli::inquiry::{
    build_libraries, parse_vpd83_designators, pick_lu_id, Hctl, InquiryInfo, SgEntry, PT_CHANGER,
    PT_TAPE,
};

#[test]
fn parse_vpd83_empty_page_returns_empty() {
    // page header + zero designators
    let buf = [0, 0x83, 0, 0];
    assert!(parse_vpd83_designators(&buf).is_empty());
}

#[test]
fn parse_vpd83_one_naa_lu_designator() {
    // page header (4) + designator: code_set=binary, assoc=00b, type=NAA(3), len=8
    let mut buf = vec![0, 0x83, 0, 12];
    buf.extend_from_slice(&[
        0x01, // code_set = binary
        0x03, // association=00, type=3 (NAA)
        0x00, // reserved
        0x08, // designator length
        0x50, 0x00, 0xe1, 0x11, 0x70, 0x18, 0x60, 0x5e, // 8-byte NAA
    ]);
    let designators = parse_vpd83_designators(&buf);
    assert_eq!(designators.len(), 1);
    assert_eq!(designators[0].association, 0);
    assert_eq!(designators[0].designator_type, 3);
    assert_eq!(designators[0].data.len(), 8);
    assert_eq!(designators[0].data[0], 0x50);
}

#[test]
fn parse_vpd83_truncated_designator_dropped() {
    // header claims 8 bytes designator, but only 4 bytes follow → should stop
    let buf = vec![0, 0x83, 0, 12, 0x01, 0x03, 0, 0x08, 0xde, 0xad];
    let designators = parse_vpd83_designators(&buf);
    assert!(designators.is_empty());
}

fn mk_entry(
    path: &str,
    hctl: Option<(u32, u32, u32, u32)>,
    peripheral: u8,
    vendor: &str,
    product: &str,
    serial: Option<&str>,
    lu_id: Option<Vec<u8>>,
) -> SgEntry {
    SgEntry {
        path: path.to_string(),
        hctl: hctl.map(|(h, c, t, l)| Hctl { host: h, channel: c, target: t, lun: l }),
        inquiry: Ok(InquiryInfo {
            peripheral_type: peripheral,
            vendor: vendor.into(),
            product: product.into(),
            revision: "x".into(),
            serial: serial.map(String::from),
        }),
        lu_id,
    }
}

#[test]
fn build_libraries_empty() {
    assert!(build_libraries(&vec![]).is_empty());
}

#[test]
fn build_libraries_ts4300_cpf_merges_to_one() {
    // Two SCSI targets, each with a drive at LUN 0 and a changer at LUN 1. The two changer units
    // share an identity: they are one changer.
    let changer_naa = vec![0x50, 0x00, 0xe1, 0x11, 0x70, 0x18, 0x60, 0x5e];
    let entries = vec![
        mk_entry(
            "/dev/sg1",
            Some((6, 0, 0, 0)),
            PT_TAPE,
            "IBM",
            "ULT3580-HH8",
            Some("HH8SERIAL"),
            Some(vec![0x50, 0x00, 0xe1, 0x11, 0x70, 0x18, 0x60, 0x6f]),
        ),
        mk_entry(
            "/dev/sg2",
            Some((6, 0, 0, 1)),
            PT_CHANGER,
            "IBM",
            "3573-TL",
            Some("LIBSERIAL"),
            Some(changer_naa.clone()),
        ),
        mk_entry(
            "/dev/sg3",
            Some((6, 0, 1, 0)),
            PT_TAPE,
            "IBM",
            "ULT3580-TD8",
            Some("TD8SERIAL"),
            Some(vec![0x50, 0x00, 0xe1, 0x11, 0x70, 0x18, 0x60, 0x5b]),
        ),
        mk_entry(
            "/dev/sg4",
            Some((6, 0, 1, 1)),
            PT_CHANGER,
            "IBM",
            "3573-TL",
            Some("LIBSERIAL"),
            Some(changer_naa),
        ),
    ];
    let libs = build_libraries(&entries);
    assert_eq!(libs.len(), 1, "CPF 应该合并为 1 个 library");
    let lib = &libs[0];
    assert_eq!(lib.changer_paths.len(), 2, "changer 有 2 条控制路径");
    assert_eq!(lib.drives.len(), 2, "2 个不同 drive");
}

#[test]
fn build_libraries_vtl_no_shared_target_no_merge() {
    // Three devices, each on a target of its own, with unrelated identities.
    let entries = vec![
        mk_entry(
            "/dev/sg3",
            Some((4, 0, 0, 0)),
            PT_CHANGER,
            "IBM",
            "03584L32",
            Some("VTL_CHG"),
            Some(vec![1, 2, 3]),
        ),
        mk_entry(
            "/dev/sg4",
            Some((3, 0, 0, 0)),
            PT_TAPE,
            "IBM",
            "ULT3580-TD8",
            Some("VTL_DRV_A"),
            Some(vec![4, 5, 6]),
        ),
        mk_entry(
            "/dev/sg5",
            Some((5, 0, 0, 0)),
            PT_TAPE,
            "IBM",
            "ULT3580-TD8",
            Some("VTL_DRV_B"),
            Some(vec![7, 8, 9]),
        ),
    ];
    let libs = build_libraries(&entries);
    assert_eq!(libs.len(), 3, "VTL 没法合并，应保留 3 个独立项");
}

#[test]
fn build_libraries_fallback_by_serial_when_no_lu_id() {
    // Without an identity, vendor, product and serial number decide.
    let entries = vec![
        mk_entry("/dev/sg1", Some((1, 0, 0, 1)), PT_CHANGER, "OLD", "LIB", Some("LIB1"), None),
        mk_entry("/dev/sg2", Some((1, 0, 1, 1)), PT_CHANGER, "OLD", "LIB", Some("LIB1"), None),
    ];
    let libs = build_libraries(&entries);
    assert_eq!(libs.len(), 1);
    assert_eq!(libs[0].changer_paths.len(), 2);
}

#[test]
fn build_libraries_mixed_lu_id_and_no_lu_id_same_serial_merges() {
    // One path reports an identity, the other does not, but the serial number is the same.
    let entries = vec![
        mk_entry(
            "/dev/sg1",
            Some((1, 0, 0, 1)),
            PT_CHANGER,
            "MIX",
            "LIB",
            Some("MIXLIB"),
            Some(vec![0xa, 0xb, 0xc]),
        ),
        mk_entry("/dev/sg2", Some((1, 0, 1, 1)), PT_CHANGER, "MIX", "LIB", Some("MIXLIB"), None),
    ];
    let libs = build_libraries(&entries);
    assert_eq!(libs.len(), 1, "同 serial 应跨 lu_id 缺失合并");
    assert_eq!(libs[0].changer_paths.len(), 2);
}

#[test]
fn parse_vpd83_zero_length_designator_kept_then_filtered_in_lu_id_pick() {
    // An empty designator is read, but never taken for an identity: else unrelated devices would
    // be merged by it.
    let mut buf = vec![0, 0x83, 0, 4];
    buf.extend_from_slice(&[0x01, 0x03, 0x00, 0x00]); // assoc=00,type=NAA,len=0
    let designators = parse_vpd83_designators(&buf);
    assert_eq!(designators.len(), 1);
    assert_eq!(designators[0].data.len(), 0);
    let pick = designators
        .iter()
        .find(|d| d.association == 0 && d.designator_type == 3 && !d.data.is_empty());
    assert!(pick.is_none(), "空 designator 不应被采纳为 lu_id");
    assert!(pick_lu_id(&designators).is_none(), "空 designator 不应被采纳为 lu_id");
}

#[test]
fn one_cluster_holds_all_paths_of_a_drive() {
    let drive = |path: &str, target: u32, serial: Option<&str>, id: Option<Vec<u8>>| {
        mk_entry(path, Some((1, 0, target, 0)), PT_TAPE, "IBM", "ULT3580-TD8", serial, id)
    };
    // Only one of the two paths reports an identifier.
    let libs = build_libraries(&vec![
        drive("sg1", 0, Some("S1"), Some(vec![1])),
        drive("sg2", 1, Some("S1"), None),
    ]);
    assert_eq!(libs.len(), 1);
    assert_eq!(libs[0].drives.len(), 1);
    assert_eq!(libs[0].drives[0].paths.len(), 2);
    // The last path shows that the first two lead to one drive; another drive stays apart.
    let libs = build_libraries(&vec![
        drive("sg1", 0, None, Some(vec![1])),
        drive("sg2", 0, Some("S2"), Some(vec![2])),
        drive("sg3", 0, Some("S1"), None),
        drive("sg4", 0, Some("S1"), Some(vec![1])),
    ]);
    assert_eq!(libs.len(), 1);
    assert_eq!(libs[0].drives.len(), 2);
    let paths: Vec<&str> = libs[0].drives[0].paths.iter().map(|p| p.path.as_str()).collect();
    assert_eq!(paths, vec!["sg1", "sg3", "sg4"]);
    assert_eq!(libs[0].drives[1].paths[0].path, "sg2");
}
