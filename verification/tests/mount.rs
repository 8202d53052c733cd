//! The mounted file system and the members of a cluster.
use tape_rs::daemon::members::{
    are_numbered, check_members, client_address, member_ids, parse_peers,
};
use tape_rs::fuse::{
    is_exclusive, list, parent_directory, plan_setattr, rename_flags, setxattr_flags, xattr_reply,
    Attr, AttrStep, Child, NodeKind, OpenDirectories, XattrReply, EBADF, EINVAL, ENOENT, ENOTDIR,
    EOPNOTSUPP, ERANGE, ESTALE,
};

#[test]
fn attributes_are_those_of_the_node() {
    let f = Attr { ino: 5, size: 513, is_dir: false, is_symlink: false }.file_attr();
    assert_eq!((f.ino, f.size, f.blocks, f.perm, f.nlink), (5, 513, 2, 0o644, 1));
    assert_eq!(f.kind, NodeKind::File);
    let d = Attr { ino: 1, size: 0, is_dir: true, is_symlink: false }.file_attr();
    assert_eq!((d.blocks, d.perm, d.nlink, d.blksize), (0, 0o755, 2, 4096));
    let l = Attr { ino: 2, size: 512, is_dir: false, is_symlink: true }.file_attr();
    assert_eq!((l.blocks, l.perm), (1, 0o777));
    assert_eq!(l.kind, NodeKind::Symlink);
}

#[test]
fn attribute_values_go_by_the_room_for_them() {
    assert!(matches!(xattr_reply(0, Ok(vec![1, 2, 3])), XattrReply::Size(3)));
    assert!(matches!(xattr_reply(3, Ok(vec![1, 2, 3])), XattrReply::Data(v) if v == vec![1, 2, 3]));
    assert!(matches!(xattr_reply(2, Ok(vec![1, 2, 3])), XattrReply::Error(ERANGE)));
    assert!(matches!(xattr_reply(2, Err(61)), XattrReply::Error(61)));
}

#[test]
fn what_is_not_supported_is_refused() {
    assert_eq!(plan_setattr(true, Some(1)), Err(EOPNOTSUPP));
    assert_eq!(plan_setattr(false, Some(1)), Ok(AttrStep::Truncate(1)));
    assert_eq!(plan_setattr(false, None), Ok(AttrStep::Look));
    assert_eq!(rename_flags(0), Ok(false));
    assert_eq!(rename_flags(1), Ok(true));
    assert_eq!(rename_flags(2), Err(EOPNOTSUPP));
    assert_eq!(rename_flags(3), Err(EOPNOTSUPP));
    assert_eq!(setxattr_flags(2, 0), Ok(2));
    assert_eq!(setxattr_flags(-1, 0), Err(EINVAL));
    assert_eq!(setxattr_flags(0, 4), Err(EINVAL));
    assert!(is_exclusive(0o200 | 2));
    assert!(!is_exclusive(2));
}

fn child(name: &str, is_dir: bool, ino: u64, link: Result<bool, i32>) -> Child {
    Child { name: name.into(), is_dir, ino, link }
}

#[test]
fn an_open_directory_is_read_in_pages() {
    let children = vec![
        child("d", true, 3, Ok(false)),
        child("gone", false, 4, Err(ENOENT)),
        child("stale", false, 5, Err(ESTALE)),
        child("f", false, 6, Ok(false)),
        child("l", false, 7, Ok(true)),
    ];
    let l = list(true, 2, 1, &children).unwrap();
    let mut t = OpenDirectories::new();
    let fh = t.opendir(l);
    let other = t.opendir(list(true, 9, 1, &vec![]).unwrap());
    assert_ne!(fh, other);
    let all = t.readdir(fh, 0).unwrap();
    let names: Vec<&str> = all.iter().map(|(e, _)| e.name.as_str()).collect();
    assert_eq!(names, vec![".", "..", "d", "f", "l"]);
    assert_eq!(all[1].0.ino, 1);
    assert_eq!(all[4].0.kind, NodeKind::Symlink);
    // Going on behind the second entry gives the rest, nothing twice.
    t.releasedir(other);
    let rest = t.readdir(fh, all[1].1).unwrap();
    let names: Vec<&str> = rest.iter().map(|(e, _)| e.name.as_str()).collect();
    assert_eq!(names, vec!["d", "f", "l"]);
    assert_eq!(rest[2].1, 5);
    assert!(t.readdir(fh, 5).unwrap().is_empty());
    assert!(t.readdir(fh, u64::MAX).unwrap().is_empty());
    t.releasedir(fh);
    assert!(matches!(t.readdir(fh, 0), Err(EBADF)));
}

#[test]
fn a_directory_that_cannot_be_listed_is_an_error() {
    assert!(matches!(list(false, 2, 1, &vec![]), Err(ENOTDIR)));
    let broken = vec![child("x", false, 4, Err(5)), child("y", false, 5, Err(6))];
    assert!(matches!(list(true, 2, 1, &broken), Err(5)));
    assert_eq!(parent_directory("/a/b"), "/a");
    assert_eq!(parent_directory("/a"), "/");
    assert_eq!(parent_directory("/"), "/");
}

fn texts(v: &[&str]) -> Vec<String> {
    v.iter().map(|s| s.to_string()).collect()
}

#[test]
fn a_cluster_names_this_node_and_two_more() {
    let peers = texts(&["2=b:1", "1=a:1", "3=c:1"]);
    assert!(are_numbered(&peers));
    let m = parse_peers(&peers).unwrap();
    assert_eq!(member_ids(&m), vec![1, 2, 3]);
    assert!(check_members(&m, 1).is_ok());
    assert_eq!(
        check_members(&m, 4),
        Err("--peer 必须列出包含本节点在内的至少三个成员".to_string())
    );
    let two = parse_peers(&texts(&["1=a", "2=b", "2=c"])).unwrap();
    assert_eq!(two.get(2).unwrap(), "c");
    assert!(check_members(&two, 1).is_err());
    assert!(!are_numbered(&texts(&["x=a"])));
    assert_eq!(
        parse_peers(&texts(&["1=a", "nobody", "2=b"])),
        Err("--peer 需要 ID=ADDR 形式: nobody".to_string())
    );
    assert_eq!(client_address("10.0.0.1:7400", 7401), "10.0.0.1:7401");
    assert_eq!(client_address("[::1]:7400", 80), "[::1]:80");
    assert_eq!(client_address("host", 80), "host:80");
}
