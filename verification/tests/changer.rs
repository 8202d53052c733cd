//! The changer commands.
use tape_rs::changer::element::{ElementAddressMap, ElementStatus, ElementType};
use tape_rs::cli::changer::check_move_result;
use tape_rs::error::TapeError;

fn fixture_map() -> ElementAddressMap {
    ElementAddressMap {
        transport_start: 0x0000,
        transport_count: 1,
        storage_start: 0x03e9,
        storage_count: 35,
        ie_start: 0x0065,
        ie_count: 5,
        dt_start: 0x0001,
        dt_count: 2,
    }
}

fn elem(addr: u16, ty: ElementType, full: bool, tag: Option<&str>) -> ElementStatus {
    ElementStatus {
        address: addr,
        element_type: ty,
        full,
        volume_tag: tag.map(String::from),
        source_address: None,
        drive_id: None,
    }
}

#[test]
fn check_move_result_ok_when_source_empty_dest_full() {
    let map = fixture_map();
    let src = 0x03e9;
    let dst = 0x0002;
    let elements = vec![
        elem(src, ElementType::Storage, false, None),
        elem(dst, ElementType::DataTransfer, true, Some("8A0043L8")),
    ];
    assert!(check_move_result(&elements, &map, src, dst).is_ok());
}

#[test]
fn check_move_result_inconsistent_when_states_unchanged() {
    let map = fixture_map();
    let src = 0x03e9;
    let dst = 0x0002;
    // The firmware refused in silence: the source is still full, the destination still empty.
    let elements = vec![
        elem(src, ElementType::Storage, true, Some("8A0043L8")),
        elem(dst, ElementType::DataTransfer, false, None),
    ];
    let err = check_move_result(&elements, &map, src, dst).unwrap_err();
    match err {
        TapeError::InconsistentState(msg) => {
            assert!(msg.contains("source full=true"));
            assert!(msg.contains("dest full=false"));
        }
        other => panic!("expected InconsistentState, got {:?}", other),
    }
}

#[test]
fn check_move_result_inconsistent_when_only_source_emptied() {
    let map = fixture_map();
    let src = 0x03e9;
    let dst = 0x0002;
    // Half done: the source was taken, but nothing arrived.
    let elements = vec![
        elem(src, ElementType::Storage, false, None),
        elem(dst, ElementType::DataTransfer, false, None),
    ];
    assert!(matches!(
        check_move_result(&elements, &map, src, dst),
        Err(TapeError::InconsistentState(_))
    ));
}

#[test]
fn check_move_result_inconsistent_when_element_missing() {
    let map = fixture_map();
    let src = 0x03e9;
    let dst = 0x0002;
    // The library did not report on the source.
    let elements = vec![elem(dst, ElementType::DataTransfer, true, Some("8A0043L8"))];
    let err = check_move_result(&elements, &map, src, dst).unwrap_err();
    match err {
        TapeError::InconsistentState(msg) => {
            assert!(msg.contains("0x03e9"));
        }
        other => panic!("expected InconsistentState, got {:?}", other),
    }
}
