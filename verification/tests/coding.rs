//! Texts, addresses and numbers.
use tape_rs::cli::format_util::format_size;
use tape_rs::daemon::net::{
    check_copy, checksum, directory_request, frame, hex, offered_index, read_head, read_reply,
    reply_head, requested_index, sha256_hex, FrameHead, FRAME_DIRECTORY, FRAME_RAFT,
};
use tape_rs::daemon::paths::{
    descendant, norm, parent_of, parse_version, version_text, writable_xattr_key, ServiceError,
};
use tape_rs::json::Json;
use tape_rs::text;
use tape_rs::url::{encode_path, encode_query, percent_decode};

fn text_of(j: &Json) -> String {
    String::from_utf8(j.write()).unwrap()
}

#[test]
fn percent_coding_round_trips() {
    for s in ["", "a b", "日本/x?y&z=1", "100%", "a+b"] {
        assert_eq!(percent_decode(&encode_query(s)), s);
    }
    assert_eq!(encode_query("a/b c"), "a%2Fb%20c");
    assert_eq!(encode_path("/a b/c"), "/a%20b/c");
    assert_eq!(percent_decode("%zz%4"), "%zz%4");
    for plain in ["", "带/池 &=?+", "100%"] {
        assert_eq!(percent_decode(plain), plain);
    }
    assert_eq!(percent_decode("%ff"), "\u{fffd}");
}

#[test]
fn json_is_read_and_written() {
    let j = Json::read(br#"{"b":[1,"x",true,null],"a":{"k":"v"}}"#).unwrap();
    assert_eq!(j.get("a").unwrap().text_in("k"), Some("v".to_string()));
    assert_eq!(j.list_in("b").unwrap().len(), 4);
    assert_eq!(j.get("b").unwrap().num_at(0), Some(1));
    assert_eq!(j.get("b").unwrap().text_at(1), Some("x".to_string()));
    assert_eq!(j.get("b").unwrap().num_at(1), None);
    let again = Json::read(&j.write()).unwrap();
    assert_eq!(text_of(&again), text_of(&j));
    assert!(Json::read(b"{").is_none());
    assert!(Json::read(b"\xff").is_none());
}

#[test]
fn digests_are_those_of_sha256() {
    assert_eq!(
        sha256_hex(b"abc"),
        "ba7816bf8f01cfea414140de5dae2223b00361a396177a9cb410ff61f20015ad"
    );
    assert_eq!(checksum(b"").len(), 32);
    assert_eq!(hex(&[0, 0xab, 0x1f]), "00ab1f");
    let sum = checksum(b"copy");
    assert!(check_copy(b"copy", &sum).is_ok());
    assert!(check_copy(b"c0py", &sum).is_err());
}

#[test]
fn frames_say_what_they_are() {
    let f = frame(FRAME_RAFT, b"hello");
    assert_eq!(read_head(&f[..5]), FrameHead::Raft(5));
    assert_eq!(&f[5..], b"hello");
    let f = frame(FRAME_DIRECTORY, b"");
    assert_eq!(read_head(&f[..5]), FrameHead::Directory(0));
    assert_eq!(read_head(&[9, 0, 0, 0, 1]), FrameHead::Unknown(9));
    assert_eq!(read_head(&[0, 0xff, 0, 0, 0]), FrameHead::TooLarge(0xff00_0000));
}

#[test]
fn a_directory_copy_is_only_taken_where_it_is_new_enough() {
    let req = directory_request(300);
    assert_eq!(requested_index(&req[5..]), 300);
    assert_eq!(offered_index(Some(299), 300), None);
    assert_eq!(offered_index(Some(300), 300), Some(300));
    assert_eq!(offered_index(None, 0), None);
    let head = reply_head(Some((301, 4096)));
    assert_eq!(read_reply(2, 300, &head).unwrap(), (301, 4096));
    assert!(read_reply(2, 302, &head).is_err());
    assert!(read_reply(2, 300, &reply_head(None)).is_err());
}

#[test]
fn sizes_read_like_floating_point_would_print_them() {
    let float = |bytes: u64| -> String {
        let units = ["B", "K", "M", "G", "T", "P"];
        let mut v = bytes as f64;
        let mut i = 0;
        while v >= 1024.0 && i + 1 < units.len() {
            v /= 1024.0;
            i += 1;
        }
        if i == 0 {
            format!("{}", bytes)
        } else {
            format!("{:.1}{}", v, units[i])
        }
    };
    assert_eq!(format_size(3221225472), "3.0G");
    for shift in 0..64 {
        for n in [0u64, 1, 3, 51, 52, 102, 103, 511, 512, 513, 1023, 1024, 1075, 1076, 1536] {
            let v = n.wrapping_shl(shift);
            for k in [v, v.wrapping_add(1), v.wrapping_sub(1)] {
                assert_eq!(format_size(k), float(k), "{}", k);
            }
        }
    }
    assert_eq!(format_size(u64::MAX), float(u64::MAX));
}

#[test]
fn paths_have_one_normal_form() {
    assert_eq!(norm("/a/b").unwrap(), "/a/b");
    assert_eq!(norm("a/b").unwrap(), "/a/b");
    assert_eq!(norm("/a//b").unwrap(), "/a/b");
    for bad in ["", "/", "/a/", "/a/../b", "/./a"] {
        assert!(matches!(norm(bad), Err(ServiceError::BadPath(_))), "{}", bad);
    }
    assert!(descendant("/a/b", "/a"));
    assert!(!descendant("/ab", "/a"));
    assert_eq!(parent_of("/a/b"), "/a");
    assert_eq!(parent_of("/a"), "");
}

#[test]
fn versions_round_trip() {
    assert_eq!(parse_version(&version_text(7, 123)), Some((7, 123)));
    assert_eq!(parse_version("7"), None);
    assert_eq!(parse_version("x.1"), None);
}

#[test]
fn attributes_of_the_service_are_protected() {
    assert_eq!(writable_xattr_key("user.color").unwrap(), "color");
    assert!(matches!(
        writable_xattr_key("user.tapers.version"),
        Err(ServiceError::ProtectedAttribute(_))
    ));
    assert!(writable_xattr_key("system.x").is_err());
}

#[test]
fn texts_are_cut_joined_and_padded() {
    assert_eq!(text::strip("  a b\u{3000}"), "a b");
    assert_eq!(text::split_words(" a  b "), vec!["a".to_string(), "b".to_string()]);
    assert_eq!(text::join(&vec!["a".into(), "b".into()], "、"), "a、b");
    assert_eq!(text::left("ab", 4), "ab  ");
    assert_eq!(text::right("ab", 4), "  ab");
    assert_eq!(text::right("abcde", 4), "abcde");
    assert_eq!(text::padded_text(7, 4), "0007");
    assert_eq!(text::hex_offset_text(0x1f0), "01f0");
    assert_eq!(text::hex_offset_text(0x12345), "12345");
    assert!(text::same_but_case("Content-Length", "content-length"));
    assert!(text::contains_text("abcd", "bc"));
    assert!(!text::contains_text("abcd", "bd"));
    assert!(text::less("a", "ab"));
    assert!(!text::less("b", "ab"));
    assert_eq!(text::number("+12", 100), Some(12));
    assert_eq!(text::number("101", 100), None);
    assert_eq!(text::number("", 100), None);
}

#[test]
fn the_reserved_directory_has_no_path_for_users() {
    for bad in ["/.tapers", ".tapers", "/.tapers/x", ".tapers/a/b"] {
        assert!(matches!(norm(bad), Err(ServiceError::BadPath(_))), "{}", bad);
    }
    assert_eq!(norm("/.tapersx/a").unwrap(), "/.tapersx/a");
    assert_eq!(norm("/a/.tapers").unwrap(), "/a/.tapers");
}
