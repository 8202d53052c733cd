//! What is printed of libraries and of other devices.
use vstd::prelude::*;

use crate::cli::inquiry;
use crate::cli::inquiry::{
    ClusterView, DriveCluster, EntryView, Hctl, Library, LibraryView, SgEntry,
};
use crate::cli::order;
use crate::text;

verus! {

/// Lines of a report.
pub type Lines = Seq<Seq<char>>;

fn put(out: &mut Vec<String>, s: String)
    ensures
        text::string_views(final(out)@) == text::string_views(old(out)@).push(s@),
{
    let ghost was = out@;
    let ghost v = s@;
    out.push(s);
    assert(text::string_views(out@) =~= text::string_views(was).push(v));
}

/// The first line of a library.
pub open spec fn header_line(idx: nat, l: LibraryView) -> Seq<char> {
    match l.changer_info {
        Some(c) => "┌─ 带库 #"@ + text::decimal(idx) + "   "@ + c.vendor + " "@ + c.product + (
        match c.serial {
            Some(s) => "   序列号 "@ + s,
            None => Seq::empty(),
        }),
        None => "┌─ 独立驱动器 #"@ + text::decimal(idx) + "（未检测到 changer）"@,
    }
}

fn header(idx: u64, l: &Library) -> (r: String)
    ensures
        r@ == header_line(idx as nat, l@),
{
    match &l.changer_info {
        Some(c) => {
            let mut t = text::cat4(
                "┌─ 带库 #",
                text::decimal_text(idx).as_str(),
                "   ",
                c.vendor.as_str(),
            );
            t.push_str(" ");
            t.push_str(c.product.as_str());
            match &c.serial {
                Some(s) => {
                    let part = text::cat2("   序列号 ", s.as_str());
                    t.push_str(part.as_str());
                },
                None => {
                    assert(t@ + Seq::<char>::empty() =~= t@);
                },
            }
            t
        },
        None => text::cat3(
            "┌─ 独立驱动器 #",
            text::decimal_text(idx).as_str(),
            "（未检测到 changer）",
        ),
    }
}

/// The lines of the paths of a drive: each with its control path, where there is one.
pub open spec fn path_lines(paths: Seq<EntryView>, changers: Seq<EntryView>) -> Lines
    decreases paths.len(),
{
    if paths.len() == 0 {
        Seq::empty()
    } else {
        let head = path_lines(paths.drop_last(), changers).push(
            "│    设备："@ + paths.last().path,
        );
        match inquiry::paired(paths.last(), changers) {
            Some(p) => head.push("│    控制路径："@ + p),
            None => head,
        }
    }
}

/// The name of the `i`th of `n` drives.
pub open spec fn drive_label(i: int, n: nat) -> Seq<char> {
    if n > 1 {
        "驱动器 "@ + seq![(65 + i) as u8 as char]
    } else {
        "驱动器"@
    }
}

/// The lines of a drive.
pub open spec fn drive_lines(i: int, n: nat, d: ClusterView, changers: Seq<EntryView>) -> Lines {
    let head = seq![
        "│"@,
        "│  "@ + drive_label(i, n) + "   "@ + d.info.vendor + " "@ + d.info.product + (if d.paths.len()
            > 1 {
            "   ("@ + text::decimal(d.paths.len()) + " 条路径)"@
        } else {
            Seq::empty()
        }),
        "│    固件版本："@ + d.info.revision,
    ];
    (match d.info.serial {
        Some(s) => head.push("│    序列号："@ + s),
        None => head,
    }) + path_lines(d.paths, changers)
}

/// The lines of the first `k` drives.
pub open spec fn drives_lines(l: LibraryView, k: nat) -> Lines
    decreases k,
{
    if k == 0 {
        Seq::empty()
    } else {
        drives_lines(l, (k - 1) as nat) + drive_lines(
            k - 1,
            l.drives.len(),
            l.drives[k - 1],
            l.changer_paths,
        )
    }
}

/// The lines of the changer.
pub open spec fn changer_lines(l: LibraryView) -> Lines {
    match l.changer_info {
        None => Seq::empty(),
        Some(c) => {
            let head = seq![
                "│"@,
                "│  换带器   "@ + c.vendor + " "@ + c.product + (if l.changer_paths.len() > 1 {
                    "   ("@ + text::decimal(l.changer_paths.len())
                        + " 条控制路径，故障切换 CPF)"@
                } else {
                    Seq::empty()
                }),
                "│    固件版本："@ + c.revision,
            ];
            match c.serial {
                Some(s) => head.push("│    序列号："@ + s),
                None => head,
            }
        },
    }
}

/// What is printed of a library.
pub open spec fn library_lines(idx: nat, l: LibraryView) -> Lines {
    seq![header_line(idx, l)] + drives_lines(l, l.drives.len()) + changer_lines(l) + seq!["└─"@]
}

fn put_paths(out: &mut Vec<String>, paths: &Vec<SgEntry>, changers: &Vec<SgEntry>)
    ensures
        text::string_views(final(out)@) == text::string_views(old(out)@) + path_lines(
            inquiry::entry_views(paths@),
            inquiry::entry_views(changers@),
        ),
{
    let ghost base = text::string_views(out@);
    let ghost ps = inquiry::entry_views(paths@);
    let ghost cs = inquiry::entry_views(changers@);
    let mut i: usize = 0;
    assert(base + path_lines(ps.take(0), cs) =~= base);
    while i < paths.len()
        invariant
            i <= paths@.len(),
            base == text::string_views(old(out)@),
            ps == inquiry::entry_views(paths@),
            cs == inquiry::entry_views(changers@),
            text::string_views(out@) == base + path_lines(ps.take(i as int), cs),
        decreases paths@.len() - i,
    {
        let e = &paths[i];
        let ghost before = path_lines(ps.take(i as int), cs);
        assert(ps.take(i + 1).drop_last() =~= ps.take(i as int));
        assert(ps.take(i + 1).last() == e@);
        put(out, text::cat2("│    设备：", e.path.as_str()));
        match inquiry::paired_changer_path(e, changers.as_slice()) {
            Some(p) => {
                put(out, text::cat2("│    控制路径：", p.as_str()));
            },
            None => {},
        }
        assert(text::string_views(out@) =~= base + path_lines(ps.take(i + 1), cs));
        i += 1;
    }
    assert(ps.take(i as int) =~= ps);
}

fn put_drive(out: &mut Vec<String>, i: usize, n: usize, d: &DriveCluster, changers: &Vec<SgEntry>)
    requires
        i <= 190,
    ensures
        text::string_views(final(out)@) == text::string_views(old(out)@) + drive_lines(
            i as int,
            n as nat,
            d@,
            inquiry::entry_views(changers@),
        ),
{
    let ghost base = text::string_views(out@);
    let ghost cs = inquiry::entry_views(changers@);
    let ghost dv = d@;
    put(out, "│".to_owned());
    let mut label = "驱动器".to_owned();
    if n > 1 {
        let c: char = (65 + i as u8) as char;
        let mut v: Vec<char> = Vec::new();
        v.push(c);
        let s = text::text_of(v.as_slice(), 0, 1);
        assert(s@ =~= seq![c]);
        label = text::cat2("驱动器 ", s.as_str());
    }
    assert(label@ == drive_label(i as int, n as nat));
    let mut t = text::cat4("│  ", label.as_str(), "   ", d.info.vendor.as_str());
    t.push_str(" ");
    t.push_str(d.info.product.as_str());
    if d.paths.len() > 1 {
        let m = text::cat3(
            "   (",
            text::decimal_text(d.paths.len() as u64).as_str(),
            " 条路径)",
        );
        t.push_str(m.as_str());
    } else {
        assert(t@ + Seq::<char>::empty() =~= t@);
    }
    assert(inquiry::entry_views(d.paths@).len() == d.paths@.len());
    put(out, t);
    put(out, text::cat2("│    固件版本：", d.info.revision.as_str()));
    match &d.info.serial {
        Some(s) => {
            put(out, text::cat2("│    序列号：", s.as_str()));
        },
        None => {},
    }
    let ghost mid = text::string_views(out@);
    put_paths(out, &d.paths, changers);
    proof {
        let all = drive_lines(i as int, n as nat, dv, cs);
        let tail = path_lines(inquiry::entry_views(d.paths@), cs);
        assert(base + all =~= mid + tail);
    }
}

/// What is printed of a library.
pub fn print_library(idx: u64, l: &Library) -> (r: Vec<String>)
    requires
        l.drives@.len() <= 191,
    ensures
        text::string_views(r@) == library_lines(idx as nat, l@),
{
    let mut out: Vec<String> = Vec::new();
    let ghost lv = l@;
    put(&mut out, header(idx, l));
    let ghost base = seq![header_line(idx as nat, lv)];
    let n = l.drives.len();
    let mut i: usize = 0;
    proof {
        assert(text::string_views(out@) =~= base);
        assert(base + Seq::<Seq<char>>::empty() =~= base);
        assert(lv.drives.len() == n);
    }
    while i < n
        invariant
            i <= n == l.drives@.len(),
            n <= 191,
            lv == l@,
            lv.drives.len() == n,
            text::string_views(out@) == base + drives_lines(lv, i as nat),
        decreases n - i,
    {
        assert(lv.drives[i as int] == l.drives@[i as int]@);
        put_drive(&mut out, i, n, &l.drives[i], &l.changer_paths);
        proof {
            let more = drive_lines(i as int, n as nat, lv.drives[i as int], lv.changer_paths);
            assert(base + (drives_lines(lv, i as nat) + more) =~= (base + drives_lines(
                lv,
                i as nat,
            )) + more);
        }
        i += 1;
    }
    let ghost mid = text::string_views(out@);
    match &l.changer_info {
        Some(c) => {
            put(&mut out, "│".to_owned());
            let mut t = text::cat4("│  换带器   ", c.vendor.as_str(), " ", c.product.as_str());
            assert(lv.changer_paths.len() == l.changer_paths@.len());
            if l.changer_paths.len() > 1 {
                let m = text::cat3(
                    "   (",
                    text::decimal_text(l.changer_paths.len() as u64).as_str(),
                    " 条控制路径，故障切换 CPF)",
                );
                t.push_str(m.as_str());
            } else {
                assert(t@ + Seq::<char>::empty() =~= t@);
            }
            put(&mut out, t);
            put(&mut out, text::cat2("│    固件版本：", c.revision.as_str()));
            match &c.serial {
                Some(s) => {
                    put(&mut out, text::cat2("│    序列号：", s.as_str()));
                },
                None => {},
            }
        },
        None => {},
    }
    assert(text::string_views(out@) =~= mid + changer_lines(lv));
    put(&mut out, "└─".to_owned());
    assert(text::string_views(out@) =~= library_lines(idx as nat, lv));
    out
}

/// The key by which devices are grouped and ordered: what has no known place comes first; then by
/// target, and on a target by unit.
pub open spec fn place_key(h: Option<Hctl>) -> order::Key {
    match h {
        None => seq![0u64, 0u64, 0u64, 0u64, 0xffff_ffffu64],
        Some(h) => seq![1u64, h.host as u64, h.channel as u64, h.target as u64, h.lun as u64],
    }
}

fn key_of(h: &Option<Hctl>) -> (r: Vec<u64>)
    ensures
        r@ == place_key(*h),
{
    let mut v: Vec<u64> = Vec::new();
    match h {
        None => {
            v.push(0);
            v.push(0);
            v.push(0);
            v.push(0);
            v.push(0xffff_ffff);
        },
        Some(h) => {
            v.push(1);
            v.push(h.host as u64);
            v.push(h.channel as u64);
            v.push(h.target as u64);
            v.push(h.lun as u64);
        },
    }
    assert(v@ =~= place_key(*h));
    v
}

/// The keys of the devices.
pub open spec fn place_keys(v: Seq<EntryView>) -> Seq<order::Key> {
    v.map_values(|e: EntryView| place_key(e.hctl))
}

/// The devices in the order in which they are shown: those of one target stand together, and keep
/// their order where they are alike.
pub fn group_by_sysfs_target(entries: &Vec<SgEntry>) -> (r: Vec<usize>)
    ensures
        order::ints(r@) == order::by_key(
            place_keys(inquiry::entry_views(entries@)),
            Seq::new(entries@.len(), |i: int| i),
        ),
        forall|i: int| 0 <= i < r@.len() ==> #[trigger] r@[i] < entries@.len(),
        r@.len() == entries@.len(),
{
    let n = entries.len();
    let ghost es = inquiry::entry_views(entries@);
    let mut keys: Vec<Vec<u64>> = Vec::new();
    let mut sel: Vec<usize> = Vec::new();
    let mut i: usize = 0;
    while i < n
        invariant
            i <= n == entries@.len(),
            es == inquiry::entry_views(entries@),
            keys@.len() == i,
            sel@.len() == i,
            forall|j: int| 0 <= j < i ==> (#[trigger] keys@[j])@ == place_key(es[j].hctl),
            forall|j: int| 0 <= j < i ==> #[trigger] sel@[j] == j,
        decreases n - i,
    {
        assert(es[i as int] == entries@[i as int]@);
        keys.push(key_of(&entries[i].hctl));
        sel.push(i);
        i += 1;
    }
    proof {
        assert(order::key_views(keys@) =~= place_keys(es));
        assert(order::ints(sel@) =~= Seq::new(entries@.len(), |i: int| i));
    }
    order::sort_by_key(&keys, &sel)
}

/// Two devices stand on one target, or neither has a known place.
pub open spec fn same_group(a: Option<Hctl>, b: Option<Hctl>) -> bool {
    match (a, b) {
        (None, None) => true,
        (Some(x), Some(y)) => x.host == y.host && x.channel == y.channel && x.target == y.target,
        _ => false,
    }
}

/// Whether two devices stand on one target.
pub fn is_same_group(a: &Option<Hctl>, b: &Option<Hctl>) -> (r: bool)
    ensures
        r == same_group(*a, *b),
{
    match (a, b) {
        (None, None) => true,
        (Some(x), Some(y)) => x.host == y.host && x.channel == y.channel && x.target == y.target,
        _ => false,
    }
}

/// The line above a group of devices.
pub fn group_line(idx: u64, h: &Option<Hctl>) -> (r: String)
    ensures
        r@ == "[#"@ + text::decimal(idx as nat) + "] "@ + (match *h {
            Some(h) => "host"@ + text::decimal(h.host as nat) + ":channel"@ + text::decimal(
                h.channel as nat,
            ) + ":target"@ + text::decimal(h.target as nat),
            None => "(sysfs 拓扑未知)"@,
        }),
{
    let place = match h {
        Some(h) => {
            let mut t = text::cat4(
                "host",
                text::decimal_text(h.host as u64).as_str(),
                ":channel",
                text::decimal_text(h.channel as u64).as_str(),
            );
            t.push_str(":target");
            t.push_str(text::decimal_text(h.target as u64).as_str());
            t
        },
        None => "(sysfs 拓扑未知)".to_owned(),
    };
    text::cat4("[#", text::decimal_text(idx).as_str(), "] ", place.as_str())
}

/// The line of a device.
pub fn device_line(e: &SgEntry) -> (r: String)
    ensures
        r@ == "  "@ + e@.path + "  (LUN "@ + (match e@.hctl {
            Some(h) => text::decimal(h.lun as nat),
            None => "?"@,
        }) + ")  "@ + (match e@.inquiry {
            Ok(i) => inquiry::role(i.peripheral_type) + " — "@ + i.vendor + " "@ + i.product + " rev "@
                + i.revision,
            Err(x) => "INQUIRY 失败: "@ + x,
        }),
{
    let lun = match &e.hctl {
        Some(h) => text::decimal_text(h.lun as u64),
        None => "?".to_owned(),
    };
    let tail = match &e.inquiry {
        Ok(i) => {
            let mut t = text::cat4(
                inquiry::role_label_cn(i.peripheral_type),
                " — ",
                i.vendor.as_str(),
                " ",
            );
            t.push_str(i.product.as_str());
            t.push_str(" rev ");
            t.push_str(i.revision.as_str());
            t
        },
        Err(x) => text::cat2("INQUIRY 失败: ", x.as_str()),
    };
    let mut t = text::cat4("  ", e.path.as_str(), "  (LUN ", lun.as_str());
    t.push_str(")  ");
    t.push_str(tail.as_str());
    t
}

} // verus!
