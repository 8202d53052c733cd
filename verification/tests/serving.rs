//! What clients ask, and what they are answered.
use tape_rs::daemon::reading::ReadError;
use tape_rs::daemon::request::parse_range;
use tape_rs::error::TapeError;

#[test]
fn range_forms() {
    assert_eq!(parse_range("bytes=0-9", 100), Some(Ok((0, 10))));
    assert_eq!(parse_range("bytes=90-", 100), Some(Ok((90, 100))));
    assert_eq!(parse_range("bytes=95-200", 100), Some(Ok((95, 100))), "终点越过末尾就截到末尾");
    assert_eq!(parse_range("bytes=-5", 100), Some(Ok((95, 100))));
    assert_eq!(parse_range("bytes=-500", 100), Some(Ok((0, 100))));
    assert_eq!(parse_range("bytes=100-", 100), Some(Err(())), "起点在末尾");
    assert_eq!(parse_range("bytes=5-2", 100), Some(Err(())));
    assert_eq!(parse_range("bytes=-0", 100), Some(Err(())));
    assert_eq!(parse_range("bytes=0-1,5-6", 100), None, "多段当没有 Range");
    assert_eq!(parse_range("items=0-1", 100), None);
}

#[test]
fn ownership_errors_are_distinct_from_medium_errors() {
    for (key, asc, ascq, lost) in [(6, 0x2a, 3, true), (6, 0x29, 0, true), (3, 0x11, 0, false)] {
        let err = ReadError::device(
            &TapeError::ScsiCommand { status: 2, sense_key: key, asc, ascq },
            "读取测试",
        );
        assert_eq!(matches!(err, ReadError::Lost(_)), lost);
        assert!(err.message().contains("status=0x02"));
        assert!(err.message().contains("sense_key="));
    }
    assert!(matches!(
        ReadError::device(
            &TapeError::ReservationConflict { device: "drive0".into() },
            "读取测试"
        ),
        ReadError::Lost(_)
    ));
}
