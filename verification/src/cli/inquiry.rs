//! Which SCSI nodes make up which library: identities of logical units, merging of paths that
//! belong to one library, and how a library is shown.
use vstd::prelude::*;

use crate::cli::order;
use crate::cli::union_find;
use crate::cli::union_find::UnionFind;
use crate::json::{Fields, Items, Json, JsonView};
use crate::strmap::Dup;
use crate::text;

verus! {

pub const PT_TAPE: u8 = 0x01;

pub const PT_CHANGER: u8 = 0x08;

/// Where a node sits: host, channel, target, unit.
#[derive(Debug, Clone, Copy, PartialEq, Eq, Structural)]
pub struct Hctl {
    pub host: u32,
    pub channel: u32,
    pub target: u32,
    pub lun: u32,
}

/// What a device says of itself.
#[derive(Debug)]
pub struct InquiryInfo {
    pub peripheral_type: u8,
    pub vendor: String,
    pub product: String,
    pub revision: String,
    pub serial: Option<String>,
}

#[verifier::ext_equal]
pub struct InfoView {
    pub peripheral_type: u8,
    pub vendor: Seq<char>,
    pub product: Seq<char>,
    pub revision: Seq<char>,
    pub serial: Option<Seq<char>>,
}

/// What an optional text says.
pub open spec fn opt_text(s: Option<String>) -> Option<Seq<char>> {
    match s {
        Some(t) => Some(t@),
        None => None,
    }
}

impl View for InquiryInfo {
    type V = InfoView;

    open spec fn view(&self) -> InfoView {
        InfoView {
            peripheral_type: self.peripheral_type,
            vendor: self.vendor@,
            product: self.product@,
            revision: self.revision@,
            serial: opt_text(self.serial),
        }
    }
}

impl Dup for InquiryInfo {
    fn dup(&self) -> (r: Self) {
        InquiryInfo {
            peripheral_type: self.peripheral_type,
            vendor: self.vendor.clone(),
            product: self.product.clone(),
            revision: self.revision.clone(),
            serial: match &self.serial {
                Some(s) => Some(s.clone()),
                None => None,
            },
        }
    }
}

/// One SCSI node and what probing it gave.
#[derive(Debug)]
pub struct SgEntry {
    pub path: String,
    pub hctl: Option<Hctl>,
    pub inquiry: Result<InquiryInfo, String>,
    /// Identifier of the logical unit; paths to one unit share it.
    pub lu_id: Option<Vec<u8>>,
}

#[verifier::ext_equal]
pub struct EntryView {
    pub path: Seq<char>,
    pub hctl: Option<Hctl>,
    pub inquiry: Result<InfoView, Seq<char>>,
    pub lu_id: Option<Seq<u8>>,
}

impl View for SgEntry {
    type V = EntryView;

    open spec fn view(&self) -> EntryView {
        EntryView {
            path: self.path@,
            hctl: self.hctl,
            inquiry: match self.inquiry {
                Ok(i) => Ok(i@),
                Err(e) => Err(e@),
            },
            lu_id: match self.lu_id {
                Some(v) => Some(v@),
                None => None,
            },
        }
    }
}

fn copy_bytes(v: &[u8]) -> (r: Vec<u8>)
    ensures
        r@ == v@,
{
    let mut out: Vec<u8> = Vec::new();
    let mut i: usize = 0;
    while i < v.len()
        invariant
            i <= v@.len(),
            out@ == v@.take(i as int),
        decreases v@.len() - i,
    {
        out.push(v[i]);
        assert(v@.take(i + 1) =~= v@.take(i as int).push(v@[i as int]));
        i += 1;
    }
    assert(v@.take(i as int) =~= v@);
    out
}

fn same_bytes(a: &[u8], b: &[u8]) -> (r: bool)
    ensures
        r == (a@ == b@),
{
    if a.len() != b.len() {
        return false;
    }
    let mut i: usize = 0;
    while i < a.len()
        invariant
            i <= a@.len() == b@.len(),
            forall|j: int| 0 <= j < i ==> a@[j] == b@[j],
        decreases a@.len() - i,
    {
        if a[i] != b[i] {
            return false;
        }
        i += 1;
    }
    assert(a@ =~= b@);
    true
}

impl Dup for SgEntry {
    fn dup(&self) -> (r: Self) {
        SgEntry {
            path: self.path.clone(),
            hctl: self.hctl,
            inquiry: match &self.inquiry {
                Ok(i) => Ok(i.dup()),
                Err(e) => Err(e.clone()),
            },
            lu_id: match &self.lu_id {
                Some(v) => Some(copy_bytes(v.as_slice())),
                None => None,
            },
        }
    }
}

/// One identifier of a device identification page.
#[derive(Debug)]
pub struct Vpd83Designator {
    pub association: u8,
    pub designator_type: u8,
    pub data: Vec<u8>,
}

#[verifier::ext_equal]
pub struct DesignatorView {
    pub association: u8,
    pub designator_type: u8,
    pub data: Seq<u8>,
}

impl View for Vpd83Designator {
    type V = DesignatorView;

    open spec fn view(&self) -> DesignatorView {
        DesignatorView {
            association: self.association,
            designator_type: self.designator_type,
            data: self.data@,
        }
    }
}

/// The identifiers of a page from offset `i` on, up to the first that is cut short.
pub open spec fn designators(page: Seq<u8>, i: int) -> Seq<DesignatorView>
    decreases page.len() - i,
{
    if i < 0 || i + 4 > page.len() || i + 4 + page[i + 3] > page.len() {
        Seq::empty()
    } else {
        let n = page[i + 3] as int;
        seq![
            DesignatorView {
                association: (page[i + 1] >> 4u8) & 0x03u8,
                designator_type: page[i + 1] & 0x0Fu8,
                data: page.subrange(i + 4, i + 4 + n),
            },
        ] + designators(page, i + 4 + n)
    }
}

/// What a list of identifiers says.
pub open spec fn designator_views(v: Seq<Vpd83Designator>) -> Seq<DesignatorView> {
    v.map_values(|d: Vpd83Designator| d@)
}

/// The identifiers of a device identification page, behind its four-byte header.
pub fn parse_vpd83_designators(page: &[u8]) -> (r: Vec<Vpd83Designator>)
    ensures
        designator_views(r@) == designators(page@, 4),
{
    let mut out: Vec<Vpd83Designator> = Vec::new();
    assert(designator_views(out@) =~= Seq::<DesignatorView>::empty());
    if page.len() < 4 {
        return out;
    }
    let mut i: usize = 4;
    while page.len() - i >= 4 && page.len() - i - 4 >= page[i + 3] as usize
        invariant
            4 <= i <= page@.len(),
            designator_views(out@) + designators(page@, i as int) == designators(page@, 4),
        decreases page@.len() - i,
    {
        let n: usize = page[i + 3] as usize;
        let b: u8 = page[i + 1];
        let ghost was = designator_views(out@);
        let data = copy_bytes(vstd::slice::slice_subrange(page, i + 4, i + 4 + n));
        out.push(
            Vpd83Designator {
                association: (b >> 4u8) & 0x03u8,
                designator_type: b & 0x0Fu8,
                data,
            },
        );
        assert(designator_views(out@) =~= was.push(out@.last()@));
        assert(designator_views(out@) + designators(page@, i + 4 + n) =~= was + designators(
            page@,
            i as int,
        ));
        i = i + 4 + n;
    }
    assert(designator_views(out@) =~= designators(page@, 4));
    out
}

/// The first identifier of the logical unit with this type and some data.
pub open spec fn first_of_type(s: Seq<DesignatorView>, ty: u8) -> Option<Seq<u8>>
    decreases s.len(),
{
    if s.len() == 0 {
        None
    } else if s[0].association == 0 && s[0].designator_type == ty && s[0].data.len() > 0 {
        Some(s[0].data)
    } else {
        first_of_type(s.drop_first(), ty)
    }
}

/// The identifier of the logical unit: by type, from the one that is most telling.
pub open spec fn picked_id(s: Seq<DesignatorView>) -> Option<Seq<u8>> {
    if first_of_type(s, 3) is Some {
        first_of_type(s, 3)
    } else if first_of_type(s, 2) is Some {
        first_of_type(s, 2)
    } else if first_of_type(s, 8) is Some {
        first_of_type(s, 8)
    } else {
        first_of_type(s, 1)
    }
}

/// What an optional byte string says.
pub open spec fn opt_bytes(v: Option<Vec<u8>>) -> Option<Seq<u8>> {
    match v {
        Some(v) => Some(v@),
        None => None,
    }
}

fn find_type(v: &Vec<Vpd83Designator>, ty: u8) -> (r: Option<Vec<u8>>)
    ensures
        opt_bytes(r) == first_of_type(designator_views(v@), ty),
{
    let ghost s = designator_views(v@);
    let mut i: usize = 0;
    assert(s.skip(0) =~= s);
    while i < v.len()
        invariant
            i <= v@.len(),
            s == designator_views(v@),
            first_of_type(s, ty) == first_of_type(s.skip(i as int), ty),
        decreases v@.len() - i,
    {
        assert(s.skip(i as int).drop_first() =~= s.skip(i + 1));
        assert(s.skip(i as int)[0] == v@[i as int]@);
        let d = &v[i];
        if d.association == 0 && d.designator_type == ty && d.data.len() > 0 {
            return Some(copy_bytes(d.data.as_slice()));
        }
        i += 1;
    }
    None
}

/// Picks the identifier of the logical unit. One without data never counts: devices that return
/// none would else be taken for one.
pub fn pick_lu_id(v: &Vec<Vpd83Designator>) -> (r: Option<Vec<u8>>)
    ensures
        opt_bytes(r) == picked_id(designator_views(v@)),
{
    let a = find_type(v, 3);
    if a.is_some() {
        return a;
    }
    let b = find_type(v, 2);
    if b.is_some() {
        return b;
    }
    let c = find_type(v, 8);
    if c.is_some() {
        return c;
    }
    find_type(v, 1)
}

/// The identifier of the logical unit in the bytes that a device sent for its identification
/// page.
pub open spec fn lu_id_in(buf: Seq<u8>) -> Option<Seq<u8>> {
    if buf.len() < 4 || buf[1] != 0x83 {
        None
    } else {
        let len = buf[2] as int * 256 + buf[3] as int;
        let end = if 4 + len <= buf.len() {
            4 + len
        } else {
            buf.len() as int
        };
        picked_id(designators(buf.take(end), 4))
    }
}

/// Reads the identifier of the logical unit from an identification page.
pub fn vpd83_lu_id(buf: &[u8]) -> (r: Option<Vec<u8>>)
    ensures
        opt_bytes(r) == lu_id_in(buf@),
{
    if buf.len() < 4 || buf[1] != 0x83 {
        return None;
    }
    let len: usize = buf[2] as usize * 256 + buf[3] as usize;
    let end: usize = if 4 + len <= buf.len() {
        4 + len
    } else {
        buf.len()
    };
    let page = vstd::slice::slice_subrange(buf, 0, end);
    assert(page@ =~= buf@.take(end as int));
    let v = parse_vpd83_designators(page);
    pick_lu_id(&v)
}

/// Neighbours in `s` with the same key.
pub open spec fn equal_neighbours(keys: Seq<order::Key>, s: Seq<int>) -> Seq<(int, int)>
    decreases s.len(),
{
    if s.len() < 2 {
        Seq::empty()
    } else {
        let r = equal_neighbours(keys, s.drop_last());
        let a = s[s.len() - 2];
        let b = s[s.len() - 1];
        if keys[a] == keys[b] {
            r.push((a, b))
        } else {
            r
        }
    }
}

/// The indices that have a key.
pub open spec fn keyed(keys: Seq<Option<order::Key>>) -> Seq<int>
    decreases keys.len(),
{
    if keys.len() == 0 {
        Seq::empty()
    } else if keys.last() is Some {
        keyed(keys.drop_last()).push(keys.len() - 1)
    } else {
        keyed(keys.drop_last())
    }
}

/// The keys, empty where there is none.
pub open spec fn key_or_empty(keys: Seq<Option<order::Key>>) -> Seq<order::Key> {
    keys.map_values(
        |k: Option<order::Key>|
            match k {
                Some(k) => k,
                None => Seq::empty(),
            },
    )
}

/// The sets after those with equal keys have been merged. What has no key takes no part.
pub open spec fn merged_by_key(r: union_find::Roots, keys: Seq<Option<order::Key>>) -> union_find::Roots {
    let ks = key_or_empty(keys);
    union_find::merged_all(r, equal_neighbours(ks, order::by_key(ks, keyed(keys))))
}

/// What a list of optional keys says.
pub open spec fn opt_keys(v: Seq<Option<Vec<u64>>>) -> Seq<Option<order::Key>> {
    v.map_values(
        |k: Option<Vec<u64>>|
            match k {
                Some(k) => Some(k@),
                None => None,
            },
    )
}

proof fn lemma_keyed(keys: Seq<Option<order::Key>>)
    ensures
        forall|x: int| #[trigger]
            keyed(keys).contains(x) <==> 0 <= x < keys.len() && keys[x] is Some,
    decreases keys.len(),
{
    if keys.len() > 0 {
        let t = keys.drop_last();
        lemma_keyed(t);
        assert forall|x: int| #[trigger] keyed(keys).contains(x) <==> 0 <= x < keys.len()
            && keys[x] is Some by {
            let a = keyed(t);
            let b = keyed(keys);
            if keys.last() is Some {
                assert(b == a.push(keys.len() - 1));
                if b.contains(x) {
                    let i = choose|i: int| 0 <= i < b.len() && b[i] == x;
                    if i < a.len() {
                        assert(a[i] == x);
                        assert(a.contains(x));
                    }
                }
                if 0 <= x < keys.len() && keys[x] is Some {
                    if x < t.len() {
                        assert(a.contains(x));
                        let i = choose|i: int| 0 <= i < a.len() && a[i] == x;
                        assert(b[i] == x);
                    } else {
                        assert(b[b.len() - 1] == x);
                    }
                }
            } else {
                assert(a.contains(x) <==> 0 <= x < t.len() && t[x] is Some);
            }
        }
    }
}

/// Entries with equal keys are together after merging, and what was together stays so.
pub proof fn lemma_merged_by_key(
    r: union_find::Roots,
    keys: Seq<Option<order::Key>>,
    i: int,
    j: int,
)
    requires
        r.len() == keys.len(),
        0 <= i < r.len(),
        0 <= j < r.len(),
    ensures
        merged_by_key(r, keys).len() == r.len(),
        r[i] == r[j] ==> merged_by_key(r, keys)[i] == merged_by_key(r, keys)[j],
        keys[i] is Some && keys[i] == keys[j] ==> merged_by_key(r, keys)[i] == merged_by_key(
            r,
            keys,
        )[j],
{
    let ks = key_or_empty(keys);
    let sel = keyed(keys);
    let s = order::by_key(ks, sel);
    let pairs = equal_neighbours(ks, s);
    union_find::lemma_merged_len(r, pairs);
    if r[i] == r[j] {
        union_find::lemma_merged_keeps(r, pairs, i, j);
    }
    if keys[i] is Some && keys[i] == keys[j] {
        lemma_keyed(keys);
        order::lemma_by_key(ks, sel);
        assert(sel.contains(i) && sel.contains(j));
        assert(s.contains(i) && s.contains(j));
        let a = choose|a: int| 0 <= a < s.len() && s[a] == i;
        let b = choose|b: int| 0 <= b < s.len() && s[b] == j;
        assert forall|x: int| 0 <= x < s.len() implies 0 <= #[trigger] s[x] < r.len() by {
            assert(s.contains(s[x]));
            assert(sel.contains(s[x]));
        }
        if a <= b {
            lemma_run(r, ks, s, a, b);
        } else {
            lemma_run(r, ks, s, b, a);
        }
    }
}

/// In an ordered list all between two equal keys have that key, so all are merged.
proof fn lemma_run(r: union_find::Roots, ks: Seq<order::Key>, s: Seq<int>, a: int, b: int)
    requires
        0 <= a <= b < s.len(),
        ks[s[a]] == ks[s[b]],
        forall|i: int, j: int|
            0 <= i < j < s.len() ==> !order::lt(ks[#[trigger] s[j]], ks[#[trigger] s[i]]),
        forall|x: int| 0 <= x < s.len() ==> 0 <= #[trigger] s[x] < r.len(),
    ensures
        ({
            let m = union_find::merged_all(r, equal_neighbours(ks, s));
            m[s[a]] == m[s[b]]
        }),
    decreases b - a,
{
    if a < b {
        let c = b - 1;
        assert(ks[s[c]] == ks[s[b]]) by {
            assert(!order::lt(ks[s[b]], ks[s[c]]));
            if c > a {
                assert(!order::lt(ks[s[c]], ks[s[a]]));
            }
            order::lemma_lt_total(ks[s[b]], ks[s[c]]);
        }
        lemma_run(r, ks, s, a, c);
        let pairs = equal_neighbours(ks, s);
        lemma_neighbour(ks, s, b);
        let k = choose|k: int| 0 <= k < pairs.len() && #[trigger] pairs[k] == (s[c], s[b]);
        union_find::lemma_merged_joins(r, pairs, k);
    }
}

proof fn lemma_neighbour(ks: Seq<order::Key>, s: Seq<int>, b: int)
    requires
        0 < b < s.len(),
        ks[s[b - 1]] == ks[s[b]],
    ensures
        exists|k: int|
            0 <= k < equal_neighbours(ks, s).len() && #[trigger] equal_neighbours(ks, s)[k] == (
                s[b - 1],
                s[b],
            ),
    decreases s.len(),
{
    let p = equal_neighbours(ks, s);
    let t = s.drop_last();
    let q = equal_neighbours(ks, t);
    if b == s.len() - 1 {
        assert(p[q.len() as int] == (s[b - 1], s[b]));
    } else {
        assert(t[b - 1] == s[b - 1] && t[b] == s[b]);
        lemma_neighbour(ks, t, b);
        let k = choose|k: int| 0 <= k < q.len() && #[trigger] q[k] == (t[b - 1], t[b]);
        assert(p[k] == q[k]);
    }
}

fn union_by_key(uf: &mut UnionFind, keys: Vec<Option<Vec<u64>>>)
    requires
        old(uf).wf(),
        old(uf)@.len() == keys@.len(),
    ensures
        final(uf).wf(),
        final(uf)@ == merged_by_key(old(uf)@, opt_keys(keys@)),
        final(uf)@.len() == old(uf)@.len(),
{
    let ghost opts = opt_keys(keys@);
    let ghost n = keys@.len();
    let ghost r0 = uf@;
    let mut ks: Vec<Vec<u64>> = Vec::new();
    let mut sel: Vec<usize> = Vec::new();
    let mut i: usize = 0;
    assert(order::ints(sel@) =~= keyed(opts.take(0)));
    while i < keys.len()
        invariant
            i <= keys@.len(),
            opts == opt_keys(keys@),
            ks@.len() == i,
            forall|j: int| 0 <= j < i ==> (#[trigger] ks@[j])@ == key_or_empty(opts)[j],
            forall|j: int| 0 <= j < sel@.len() ==> #[trigger] sel@[j] < i,
            order::ints(sel@) == keyed(opts.take(i as int)),
        decreases keys@.len() - i,
    {
        proof {
            assert(opts.take(i + 1).drop_last() =~= opts.take(i as int));
            assert(opts.take(i + 1).last() == opts[i as int]);
        }
        let ghost was = order::ints(sel@);
        match &keys[i] {
            Some(k) => {
                ks.push(copy_key(k));
                sel.push(i);
                assert(order::ints(sel@) =~= was.push(i as int));
            },
            None => {
                let k: Vec<u64> = Vec::new();
                assert(k@ =~= Seq::<u64>::empty());
                ks.push(k);
            },
        }
        i += 1;
    }
    assert(opts.take(i as int) =~= opts);
    assert(order::key_views(ks@) =~= key_or_empty(opts));
    let s = order::sort_by_key(&ks, &sel);
    let ghost kv = key_or_empty(opts);
    let ghost sv = order::ints(s@);
    if s.len() == 0 {
        return;
    }
    let mut j: usize = 1;
    assert(equal_neighbours(kv, sv.take(1)) =~= Seq::<(int, int)>::empty());
    while j < s.len()
        invariant
            1 <= j <= s@.len(),
            kv == order::key_views(ks@),
            sv == order::ints(s@),
            uf.wf(),
            uf@.len() == n,
            ks@.len() == n,
            forall|x: int| 0 <= x < s@.len() ==> #[trigger] s@[x] < n,
            uf@ == union_find::merged_all(r0, equal_neighbours(kv, sv.take(j as int))),
        decreases s@.len() - j,
    {
        let a: usize = s[j - 1];
        let b: usize = s[j];
        let ghost p = equal_neighbours(kv, sv.take(j as int));
        proof {
            assert(sv.take(j + 1).drop_last() =~= sv.take(j as int));
            assert(sv.take(j + 1)[j - 1] == a as int);
            assert(sv.take(j + 1)[j as int] == b as int);
            assert(kv[a as int] == ks@[a as int]@);
            assert(kv[b as int] == ks@[b as int]@);
        }
        if same_key(&ks[a], &ks[b]) {
            assert(p.push((a as int, b as int)).drop_last() =~= p);
            uf.union(a, b);
        }
        j += 1;
    }
    assert(sv.take(j as int) =~= sv);
}

fn copy_key(k: &Vec<u64>) -> (r: Vec<u64>)
    ensures
        r@ == k@,
{
    let mut out: Vec<u64> = Vec::new();
    let mut i: usize = 0;
    while i < k.len()
        invariant
            i <= k@.len(),
            out@ == k@.take(i as int),
        decreases k@.len() - i,
    {
        out.push(k[i]);
        assert(k@.take(i + 1) =~= k@.take(i as int).push(k@[i as int]));
        i += 1;
    }
    assert(k@.take(i as int) =~= k@);
    out
}

fn same_key(a: &Vec<u64>, b: &Vec<u64>) -> (r: bool)
    ensures
        r == (a@ == b@),
{
    let r = !order::less(a, b) && !order::less(b, a);
    proof {
        order::lemma_lt_total(a@, b@);
        order::lemma_lt_irreflexive(a@);
    }
    r
}

/// Characters as numbers.
pub open spec fn codes(s: Seq<char>) -> Seq<u64> {
    s.map_values(|c: char| c as u64)
}

/// Bytes as numbers.
pub open spec fn byte_codes(s: Seq<u8>) -> Seq<u64> {
    s.map_values(|b: u8| b as u64)
}

impl EntryView {
    /// Nodes of one SCSI target belong to one library.
    pub open spec fn target_key(self) -> Option<order::Key> {
        match self.hctl {
            Some(h) => Some(seq![h.host as u64, h.channel as u64, h.target as u64]),
            None => None,
        }
    }

    /// Paths to one logical unit belong together.
    pub open spec fn id_key(self) -> Option<order::Key> {
        match self.lu_id {
            Some(v) => Some(byte_codes(v)),
            None => None,
        }
    }

    /// Vendor, product and serial number in one text.
    pub open spec fn serial_key(self) -> Option<order::Key> {
        match self.inquiry {
            Ok(i) => match i.serial {
                Some(s) => Some(codes(i.vendor + "|"@ + i.product + "|"@ + s)),
                None => None,
            },
            Err(_) => None,
        }
    }

    /// Which device the node leads to: its identifier, or else vendor, product and serial
    /// number, or else the node itself.
    pub open spec fn unit_key(self) -> Seq<u8> {
        match self.lu_id {
            Some(v) => v,
            None => match self.inquiry {
                Ok(i) => vstd::utf8::encode_utf8(i.vendor) + seq![0x7cu8]
                    + vstd::utf8::encode_utf8(i.product) + seq![0x7cu8]
                    + vstd::utf8::encode_utf8(
                    match i.serial {
                        Some(s) => s,
                        None => self.path,
                    },
                ),
                Err(_) => Seq::empty(),
            },
        }
    }
}

/// Two nodes lead to one device: what they tell of it is the same, or vendor, product and serial
/// number are, even where only one of them has an identifier.
pub open spec fn same_device(a: EntryView, b: EntryView) -> bool {
    ||| a.unit_key() == b.unit_key()
    ||| a.serial_key() is Some && a.serial_key() == b.serial_key()
}

/// What a list of entries says.
pub open spec fn entry_views(v: Seq<SgEntry>) -> Seq<EntryView> {
    v.map_values(|e: SgEntry| e@)
}

/// The sets of nodes that belong together: by target, by identifier, by serial number.
pub open spec fn library_roots(e: Seq<EntryView>) -> union_find::Roots {
    merged_by_key(
        merged_by_key(
            merged_by_key(
                union_find::apart(e.len()),
                e.map_values(|x: EntryView| x.target_key()),
            ),
            e.map_values(|x: EntryView| x.id_key()),
        ),
        e.map_values(|x: EntryView| x.serial_key()),
    )
}

/// Two nodes on one target, with one identifier, or with one vendor, product and serial number
/// are in one library, even where one of them lacks an identifier.
pub proof fn law_shared_keys_share_a_library(e: Seq<EntryView>, i: int, j: int)
    requires
        0 <= i < e.len(),
        0 <= j < e.len(),
        (e[i].target_key() is Some && e[i].target_key() == e[j].target_key()) || (
        e[i].id_key() is Some && e[i].id_key() == e[j].id_key()) || (e[i].serial_key() is Some
            && e[i].serial_key() == e[j].serial_key()),
    ensures
        library_roots(e)[i] == library_roots(e)[j],
{
    let k1 = e.map_values(|x: EntryView| x.target_key());
    let k2 = e.map_values(|x: EntryView| x.id_key());
    let k3 = e.map_values(|x: EntryView| x.serial_key());
    let r0 = union_find::apart(e.len());
    lemma_merged_by_key(r0, k1, i, j);
    let r1 = merged_by_key(r0, k1);
    lemma_merged_by_key(r1, k2, i, j);
    let r2 = merged_by_key(r1, k2);
    lemma_merged_by_key(r2, k3, i, j);
}

/// Two nodes have something in common by which they belong together.
pub open spec fn linked(a: EntryView, b: EntryView) -> bool {
    ||| a.target_key() is Some && a.target_key() == b.target_key()
    ||| a.id_key() is Some && a.id_key() == b.id_key()
    ||| a.serial_key() is Some && a.serial_key() == b.serial_key()
}

proof fn lemma_pairs(ks: Seq<order::Key>, s: Seq<int>)
    ensures
        forall|k: int|
            0 <= k < equal_neighbours(ks, s).len() ==> {
                let p = #[trigger] equal_neighbours(ks, s)[k];
                s.contains(p.0) && s.contains(p.1) && ks[p.0] == ks[p.1]
            },
    decreases s.len(),
{
    if s.len() >= 2 {
        let t = s.drop_last();
        lemma_pairs(ks, t);
        let all = equal_neighbours(ks, s);
        let before = equal_neighbours(ks, t);
        assert forall|k: int| 0 <= k < all.len() implies {
            let p = #[trigger] all[k];
            s.contains(p.0) && s.contains(p.1) && ks[p.0] == ks[p.1]
        } by {
            if k < before.len() {
                let p = before[k];
                assert(t.contains(p.0) && t.contains(p.1));
                let a = choose|a: int| 0 <= a < t.len() && t[a] == p.0;
                let b = choose|b: int| 0 <= b < t.len() && t[b] == p.1;
                assert(s[a] == p.0 && s[b] == p.1);
            } else {
                assert(s[s.len() - 2] == all[k].0);
                assert(s[s.len() - 1] == all[k].1);
            }
        }
    }
}

proof fn lemma_key_separate(
    r: union_find::Roots,
    keys: Seq<Option<order::Key>>,
    s: Set<int>,
)
    requires
        r.len() == keys.len(),
        union_find::separate(r, s),
        forall|x: int, y: int|
            0 <= x < keys.len() && 0 <= y < keys.len() && #[trigger] keys[x] is Some && keys[x]
                == #[trigger] keys[y] ==> s.contains(x) == s.contains(y),
    ensures
        union_find::separate(merged_by_key(r, keys), s),
        merged_by_key(r, keys).len() == r.len(),
{
    let ks = key_or_empty(keys);
    let sel = keyed(keys);
    let l = order::by_key(ks, sel);
    let pairs = equal_neighbours(ks, l);
    lemma_keyed(keys);
    order::lemma_by_key(ks, sel);
    lemma_pairs(ks, l);
    union_find::lemma_merged_len(r, pairs);
    assert forall|k: int| 0 <= k < pairs.len() implies {
        &&& 0 <= (#[trigger] pairs[k]).0 < r.len()
        &&& 0 <= pairs[k].1 < r.len()
        &&& s.contains(pairs[k].0) == s.contains(pairs[k].1)
    } by {
        let p = pairs[k];
        assert(l.contains(p.0) && l.contains(p.1));
        assert(sel.contains(p.0) && sel.contains(p.1));
        assert(keys[p.0] is Some && keys[p.1] is Some);
        assert(ks[p.0] == keys[p.0]->0 && ks[p.1] == keys[p.1]->0);
    }
    union_find::lemma_merged_separate(r, pairs, s);
}

/// Nothing else joins libraries: nodes that no chain of common targets, identifiers or serial
/// numbers leads to stay in another library.
pub proof fn law_unlinked_nodes_stay_apart(e: Seq<EntryView>, s: Set<int>, i: int, j: int)
    requires
        0 <= i < e.len(),
        0 <= j < e.len(),
        s.contains(i),
        !s.contains(j),
        forall|x: int, y: int|
            0 <= x < e.len() && 0 <= y < e.len() && #[trigger] linked(e[x], e[y]) && s.contains(x)
                ==> s.contains(y),
    ensures
        library_roots(e)[i] != library_roots(e)[j],
{
    let k1 = e.map_values(|x: EntryView| x.target_key());
    let k2 = e.map_values(|x: EntryView| x.id_key());
    let k3 = e.map_values(|x: EntryView| x.serial_key());
    assert forall|x: int, y: int|
        0 <= x < e.len() && 0 <= y < e.len() && linked(e[x], e[y]) implies s.contains(x)
        == s.contains(y) by {
        assert(linked(e[y], e[x]));
    }
    let r0 = union_find::apart(e.len());
    assert forall|x: int, y: int|
        0 <= x < e.len() && 0 <= y < e.len() && #[trigger] k1[x] is Some && k1[x]
            == #[trigger] k1[y] implies s.contains(x) == s.contains(y) by {
        assert(linked(e[x], e[y]));
    }
    lemma_key_separate(r0, k1, s);
    let r1 = merged_by_key(r0, k1);
    assert forall|x: int, y: int|
        0 <= x < e.len() && 0 <= y < e.len() && #[trigger] k2[x] is Some && k2[x]
            == #[trigger] k2[y] implies s.contains(x) == s.contains(y) by {
        assert(linked(e[x], e[y]));
    }
    lemma_key_separate(r1, k2, s);
    let r2 = merged_by_key(r1, k2);
    assert forall|x: int, y: int|
        0 <= x < e.len() && 0 <= y < e.len() && #[trigger] k3[x] is Some && k3[x]
            == #[trigger] k3[y] implies s.contains(x) == s.contains(y) by {
        assert(linked(e[x], e[y]));
    }
    lemma_key_separate(r2, k3, s);
}

fn push_codes(out: &mut Vec<u64>, s: &str)
    ensures
        final(out)@ == old(out)@ + codes(s@),
{
    let v = text::chars(s);
    let ghost o = out@;
    let mut i: usize = 0;
    assert(o + codes(s@.take(0)) =~= o);
    while i < v.len()
        invariant
            v@ == s@,
            i <= v@.len(),
            out@ == o + codes(s@.take(i as int)),
        decreases v@.len() - i,
    {
        proof {
            text::lemma_char_code(v@[i as int]);
        }
        let c: char = v[i];
        out.push(c as u64);
        assert(o + codes(s@.take(i + 1)) =~= (o + codes(s@.take(i as int))).push(
            s@[i as int] as u64,
        ));
        i += 1;
    }
    assert(s@.take(i as int) =~= s@);
}

fn code_key(s: &str) -> (r: Vec<u64>)
    ensures
        r@ == codes(s@),
{
    let mut out: Vec<u64> = Vec::new();
    push_codes(&mut out, s);
    assert(Seq::<u64>::empty() + codes(s@) =~= codes(s@));
    out
}

impl SgEntry {
    fn target_key(&self) -> (r: Option<Vec<u64>>)
        ensures
            r is Some <==> self@.target_key() is Some,
            r is Some ==> r->0@ == self@.target_key()->0,
    {
        match self.hctl {
            Some(h) => {
                let mut k: Vec<u64> = Vec::new();
                k.push(h.host as u64);
                k.push(h.channel as u64);
                k.push(h.target as u64);
                assert(k@ =~= seq![h.host as u64, h.channel as u64, h.target as u64]);
                Some(k)
            },
            None => None,
        }
    }

    fn id_key(&self) -> (r: Option<Vec<u64>>)
        ensures
            r is Some <==> self@.id_key() is Some,
            r is Some ==> r->0@ == self@.id_key()->0,
    {
        match &self.lu_id {
            Some(v) => {
                let mut k: Vec<u64> = Vec::new();
                let mut i: usize = 0;
                while i < v.len()
                    invariant
                        i <= v@.len(),
                        k@ == byte_codes(v@).take(i as int),
                    decreases v@.len() - i,
                {
                    k.push(v[i] as u64);
                    assert(byte_codes(v@).take(i + 1) =~= byte_codes(v@).take(i as int).push(
                        v@[i as int] as u64,
                    ));
                    i += 1;
                }
                assert(byte_codes(v@).take(i as int) =~= byte_codes(v@));
                Some(k)
            },
            None => None,
        }
    }

    fn serial_key(&self) -> (r: Option<Vec<u64>>)
        ensures
            r is Some <==> self@.serial_key() is Some,
            r is Some ==> r->0@ == self@.serial_key()->0,
    {
        match &self.inquiry {
            Ok(info) => match &info.serial {
                Some(s) => {
                    let mut t = text::cat4(info.vendor.as_str(), "|", info.product.as_str(), "|");
                    t.push_str(s.as_str());
                    Some(code_key(t.as_str()))
                },
                None => None,
            },
            Err(_) => None,
        }
    }

    /// Which device the node leads to.
    pub fn lu_key_of(&self) -> (r: Vec<u8>)
        ensures
            r@ == self@.unit_key(),
    {
        match &self.lu_id {
            Some(v) => copy_bytes(v.as_slice()),
            None => match &self.inquiry {
                Ok(info) => {
                    let mut t = copy_bytes(info.vendor.as_str().as_bytes());
                    t.push(0x7c);
                    push_bytes(&mut t, info.product.as_str().as_bytes());
                    t.push(0x7c);
                    match &info.serial {
                        Some(s) => push_bytes(&mut t, s.as_str().as_bytes()),
                        None => push_bytes(&mut t, self.path.as_str().as_bytes()),
                    }
                    assert(t@ =~= self@.unit_key());
                    t
                },
                Err(_) => Vec::new(),
            },
        }
    }
}

fn push_bytes(out: &mut Vec<u8>, v: &[u8])
    ensures
        final(out)@ == old(out)@ + v@,
{
    let ghost o = out@;
    let mut i: usize = 0;
    assert(o + v@.take(0) =~= o);
    while i < v.len()
        invariant
            i <= v@.len(),
            out@ == o + v@.take(i as int),
        decreases v@.len() - i,
    {
        out.push(v[i]);
        assert(o + v@.take(i + 1) =~= (o + v@.take(i as int)).push(v@[i as int]));
        i += 1;
    }
    assert(v@.take(i as int) =~= v@);
}

/// The indices below `n` in the set `r`.
pub open spec fn members(roots: union_find::Roots, r: int, n: int) -> Seq<int>
    decreases n,
{
    if n <= 0 {
        Seq::empty()
    } else if roots[n - 1] == r {
        members(roots, r, n - 1).push(n - 1)
    } else {
        members(roots, r, n - 1)
    }
}

/// The sets represented by the indices below `k`, in that order, each in ascending order.
pub open spec fn sets(roots: union_find::Roots, k: int) -> Seq<Seq<int>>
    decreases k,
{
    if k <= 0 {
        Seq::empty()
    } else {
        let m = members(roots, k - 1, roots.len() as int);
        if m.len() > 0 {
            sets(roots, k - 1).push(m)
        } else {
            sets(roots, k - 1)
        }
    }
}

/// The sets of indices.
fn components(uf: &mut UnionFind, n: usize) -> (r: Vec<Vec<usize>>)
    requires
        old(uf).wf(),
        old(uf)@.len() == n,
    ensures
        final(uf)@ == old(uf)@,
        r@.map_values(|v: Vec<usize>| order::ints(v@)) == sets(old(uf)@, n as int),
        forall|i: int, j: int|
            0 <= i < r@.len() && 0 <= j < r@[i]@.len() ==> #[trigger] r@[i]@[j] < n,
{
    let ghost roots = uf@;
    let mut found: Vec<usize> = Vec::new();
    let mut i: usize = 0;
    while i < n
        invariant
            i <= n,
            uf.wf(),
            uf@ == roots,
            roots.len() == n,
            found@.len() == i,
            forall|j: int| 0 <= j < i ==> #[trigger] found@[j] == roots[j],
        decreases n - i,
    {
        let r: usize = uf.find(i);
        found.push(r);
        i += 1;
    }
    let mut out: Vec<Vec<usize>> = Vec::new();
    let mut k: usize = 0;
    assert(out@.map_values(|v: Vec<usize>| order::ints(v@)) =~= Seq::<Seq<int>>::empty());
    while k < n
        invariant
            k <= n,
            found@.len() == n == roots.len(),
            forall|j: int| 0 <= j < n ==> #[trigger] found@[j] == roots[j],
            out@.map_values(|v: Vec<usize>| order::ints(v@)) == sets(roots, k as int),
            forall|i: int, j: int|
                0 <= i < out@.len() && 0 <= j < out@[i]@.len() ==> #[trigger] out@[i]@[j] < n,
        decreases n - k,
    {
        let mut m: Vec<usize> = Vec::new();
        let mut j: usize = 0;
        assert(order::ints(m@) =~= Seq::<int>::empty());
        while j < n
            invariant
                j <= n,
                found@.len() == n == roots.len(),
                forall|j: int| 0 <= j < n ==> #[trigger] found@[j] == roots[j],
                order::ints(m@) == members(roots, k as int, j as int),
                forall|x: int| 0 <= x < m@.len() ==> #[trigger] m@[x] < n,
            decreases n - j,
        {
            if found[j] == k {
                let ghost was = order::ints(m@);
                m.push(j);
                assert(order::ints(m@) =~= was.push(j as int));
            }
            j += 1;
        }
        if m.len() > 0 {
            let ghost was = out@.map_values(|v: Vec<usize>| order::ints(v@));
            let ghost mv = order::ints(m@);
            out.push(m);
            assert(out@.map_values(|v: Vec<usize>| order::ints(v@)) =~= was.push(mv));
        }
        k += 1;
    }
    out
}

/// All the paths to one device.
#[derive(Debug)]
pub struct DriveCluster {
    pub info: InquiryInfo,
    pub paths: Vec<SgEntry>,
}

#[verifier::ext_equal]
pub struct ClusterView {
    pub info: InfoView,
    pub paths: Seq<EntryView>,
}

impl View for DriveCluster {
    type V = ClusterView;

    open spec fn view(&self) -> ClusterView {
        ClusterView { info: self.info@, paths: entry_views(self.paths@) }
    }
}

impl Dup for DriveCluster {
    fn dup(&self) -> (r: Self) {
        DriveCluster {
            info: self.info.dup(),
            paths: dup_entries(&self.paths),
        }
    }
}

fn dup_entries(v: &Vec<SgEntry>) -> (r: Vec<SgEntry>)
    ensures
        entry_views(r@) == entry_views(v@),
{
    let mut out: Vec<SgEntry> = Vec::new();
    let mut i: usize = 0;
    while i < v.len()
        invariant
            i <= v@.len(),
            out@.len() == i,
            forall|j: int| 0 <= j < i ==> (#[trigger] out@[j])@ == v@[j]@,
        decreases v@.len() - i,
    {
        out.push(v[i].dup());
        i += 1;
    }
    assert(entry_views(out@) =~= entry_views(v@));
    out
}

/// What a list of clusters says.
pub open spec fn cluster_views(v: Seq<DriveCluster>) -> Seq<ClusterView> {
    v.map_values(|c: DriveCluster| c@)
}

/// A library, or drives that belong to none.
#[derive(Debug)]
pub struct Library {
    pub changer_info: Option<InquiryInfo>,
    pub changer_paths: Vec<SgEntry>,
    pub drives: Vec<DriveCluster>,
}

#[verifier::ext_equal]
pub struct LibraryView {
    pub changer_info: Option<InfoView>,
    pub changer_paths: Seq<EntryView>,
    pub drives: Seq<ClusterView>,
}

impl View for Library {
    type V = LibraryView;

    open spec fn view(&self) -> LibraryView {
        LibraryView {
            changer_info: match self.changer_info {
                Some(i) => Some(i@),
                None => None,
            },
            changer_paths: entry_views(self.changer_paths@),
            drives: cluster_views(self.drives@),
        }
    }
}

/// The cluster holds a path to the device that `e` leads to.
pub open spec fn reaches(c: ClusterView, e: EntryView) -> bool {
    exists|i: int| 0 <= i < c.paths.len() && same_device(#[trigger] c.paths[i], e)
}

/// The clusters that reach the device of `e`, or those that do not.
pub open spec fn those(s: Seq<ClusterView>, e: EntryView, reaching: bool) -> Seq<ClusterView>
    decreases s.len(),
{
    if s.len() == 0 {
        Seq::empty()
    } else if reaches(s.last(), e) == reaching {
        those(s.drop_last(), e, reaching).push(s.last())
    } else {
        those(s.drop_last(), e, reaching)
    }
}

/// How many clusters come before the first that reaches the device of `e`.
pub open spec fn before(s: Seq<ClusterView>, e: EntryView) -> nat
    decreases s.len(),
{
    if s.len() == 0 || reaches(s[0], e) {
        0
    } else {
        1 + before(s.drop_first(), e)
    }
}

/// With one more path: in the cluster of its device, or in a new one. Clusters that the path shows
/// to be of one device become one, in the place of the first.
pub open spec fn with_path(s: Seq<ClusterView>, info: InfoView, e: EntryView) -> Seq<ClusterView> {
    let home = those(s, e, true);
    if home.len() == 0 {
        s.push(ClusterView { info, paths: seq![e] })
    } else {
        those(s, e, false).insert(
            before(s, e) as int,
            ClusterView { info: home[0].info, paths: all_paths(home).push(e) },
        )
    }
}

/// The devices of type `ty` among the nodes `idxs`.
pub open spec fn devices(e: Seq<EntryView>, idxs: Seq<int>, ty: u8) -> Seq<ClusterView>
    decreases idxs.len(),
{
    if idxs.len() == 0 {
        Seq::empty()
    } else {
        let s = devices(e, idxs.drop_last(), ty);
        let x = e[idxs.last()];
        match x.inquiry {
            Ok(i) => if i.peripheral_type == ty {
                with_path(s, i, x)
            } else {
                s
            },
            Err(_) => s,
        }
    }
}

/// All the paths of the clusters in a row.
pub open spec fn all_paths(s: Seq<ClusterView>) -> Seq<EntryView>
    decreases s.len(),
{
    if s.len() == 0 {
        Seq::empty()
    } else {
        all_paths(s.drop_last()) + s.last().paths
    }
}

/// The library that the nodes `idxs` make up.
pub open spec fn assembled(e: Seq<EntryView>, idxs: Seq<int>) -> LibraryView {
    let changers = devices(e, idxs, PT_CHANGER);
    LibraryView {
        changer_info: if changers.len() == 0 {
            None
        } else {
            Some(changers[0].info)
        },
        changer_paths: all_paths(changers),
        drives: devices(e, idxs, PT_TAPE),
    }
}

/// Text so that a longer one comes after its beginning, whatever follows.
pub open spec fn closed_codes(s: Seq<char>) -> Seq<u64> {
    s.map_values(|c: char| (c as u64 + 1) as u64).push(0)
}

/// Libraries with a changer come first, by vendor and product.
pub open spec fn library_key(l: LibraryView) -> order::Key {
    match l.changer_info {
        Some(i) => seq![0u64] + closed_codes(i.vendor) + closed_codes(i.product),
        None => seq![1u64] + closed_codes(Seq::empty()) + closed_codes(Seq::empty()),
    }
}

/// The libraries before they are ordered.
pub open spec fn gathered(e: Seq<EntryView>) -> Seq<LibraryView> {
    sets(library_roots(e), e.len() as int).map_values(|s: Seq<int>| assembled(e, s))
}

/// The libraries that the nodes make up, in order.
pub open spec fn libraries(e: Seq<EntryView>) -> Seq<LibraryView> {
    let g = gathered(e);
    let keys = g.map_values(|l: LibraryView| library_key(l));
    order::by_key(keys, Seq::new(g.len(), |i: int| i)).map_values(|i: int| g[i])
}

/// What a list of libraries says.
pub open spec fn library_views(v: Seq<Library>) -> Seq<LibraryView> {
    v.map_values(|l: Library| l@)
}

/// Puts one more path into the cluster of its device, or into a new one.
fn add_path_to_cluster(clusters: &mut Vec<DriveCluster>, info: &InquiryInfo, entry: &SgEntry)
    ensures
        cluster_views(final(clusters)@) == with_path(
            cluster_views(old(clusters)@),
            info@,
            entry@,
        ),
{
    let ghost s = cluster_views(clusters@);
    let ghost e = entry@;
    let ghost mut j: int = 0;
    let n = clusters.len();
    let mut home: Option<DriveCluster> = None;
    let mut at: usize = 0;
    let mut i: usize = 0;
    let mut left: usize = n;
    assert(s.skip(0) =~= s);
    assert(those(s.take(0), e, false) + s.skip(0) =~= s);
    while left > 0
        invariant
            left == n - j,
            0 <= j <= n == s.len(),
            i == those(s.take(j), e, false).len(),
            i <= j,
            e == entry@,
            cluster_views(clusters@) == those(s.take(j), e, false) + s.skip(j),
            home is None ==> those(s.take(j), e, true).len() == 0 && before(s, e) == j + before(
                s.skip(j),
                e,
            ) && i == j,
            home is Some ==> those(s.take(j), e, true).len() > 0 && home->0@.info == those(
                s.take(j),
                e,
                true,
            )[0].info && home->0@.paths == all_paths(those(s.take(j), e, true)) && at == before(
                s,
                e,
            ) && at <= i,
        decreases left,
    {
        let ghost h = those(s.take(j), e, true);
        let ghost u = those(s.take(j), e, false);
        let ghost c = s[j];
        proof {
            assert(s.take(j + 1).drop_last() =~= s.take(j));
            assert(s.take(j + 1).last() == c);
            assert(s.skip(j)[0] == c);
            assert(s.skip(j).drop_first() =~= s.skip(j + 1));
            assert(cluster_views(clusters@).len() == clusters@.len());
            assert(cluster_views(clusters@)[i as int] == c);
            assert(clusters@[i as int]@ == c);
        }
        if is_reached(&clusters[i], entry) {
            let ghost cv = cluster_views(clusters@);
            let mut found = clusters.remove(i);
            assert(cluster_views(clusters@) =~= cv.remove(i as int));
            assert(cv.remove(i as int) =~= u + s.skip(j + 1));
            assert(h.push(c).drop_last() =~= h);
            match home {
                None => {
                    at = i;
                    assert(h =~= Seq::empty());
                    assert(all_paths(h.push(c)) =~= c.paths);
                    home = Some(found);
                },
                Some(mut first) => {
                    let ghost a = first.paths@;
                    let ghost b = found.paths@;
                    first.paths.append(&mut found.paths);
                    assert(entry_views(first.paths@) =~= entry_views(a) + entry_views(b));
                    home = Some(first);
                },
            }
        } else {
            assert(u + s.skip(j) =~= u.push(c) + s.skip(j + 1));
            assert(i < n);
            i += 1;
        }
        proof {
            j = j + 1;
        }
        left -= 1;
    }
    assert(s.take(j) =~= s);
    assert(s.skip(j) =~= Seq::empty());
    assert(cluster_views(clusters@) =~= those(s, e, false));
    match home {
        None => {
            proof {
                lemma_none_reaches(s, e);
            }
            let mut paths: Vec<SgEntry> = Vec::new();
            paths.push(entry.dup());
            assert(entry_views(paths@) =~= seq![entry@]);
            clusters.push(DriveCluster { info: info.dup(), paths });
            assert(cluster_views(clusters@) =~= with_path(s, info@, entry@));
        },
        Some(mut first) => {
            let ghost was = entry_views(first.paths@);
            let ghost u = cluster_views(clusters@);
            first.paths.push(entry.dup());
            assert(entry_views(first.paths@) =~= was.push(entry@));
            let ghost f = first@;
            clusters.insert(at, first);
            assert(cluster_views(clusters@) =~= u.insert(at as int, f));
        },
    }
}

proof fn lemma_none_reaches(s: Seq<ClusterView>, e: EntryView)
    requires
        those(s, e, true).len() == 0,
    ensures
        those(s, e, false) == s,
    decreases s.len(),
{
    if s.len() > 0 {
        lemma_none_reaches(s.drop_last(), e);
        assert(s.drop_last().push(s.last()) =~= s);
    }
}

/// Whether a cluster holds a path to the device of `entry`.
fn is_reached(c: &DriveCluster, entry: &SgEntry) -> (r: bool)
    ensures
        r == reaches(c@, entry@),
{
    let key = entry.lu_key_of();
    let serial = entry.serial_key();
    let mut i: usize = 0;
    while i < c.paths.len()
        invariant
            i <= c.paths@.len(),
            key@ == entry@.unit_key(),
            serial is Some <==> entry@.serial_key() is Some,
            serial is Some ==> serial->0@ == entry@.serial_key()->0,
            forall|j: int| 0 <= j < i ==> !same_device(#[trigger] c@.paths[j], entry@),
        decreases c.paths@.len() - i,
    {
        let p = &c.paths[i];
        assert(c@.paths[i as int] == p@);
        if same_bytes(p.lu_key_of().as_slice(), key.as_slice()) {
            return true;
        }
        match (p.serial_key(), &serial) {
            (Some(a), Some(b)) => {
                if same_key(&a, b) {
                    return true;
                }
            },
            _ => {},
        }
        i += 1;
    }
    false
}

/// The library that the nodes `idxs` make up.
fn assemble_library(entries: &Vec<SgEntry>, idxs: &Vec<usize>) -> (r: Library)
    requires
        forall|j: int| 0 <= j < idxs@.len() ==> #[trigger] idxs@[j] < entries@.len(),
    ensures
        r@ == assembled(entry_views(entries@), order::ints(idxs@)),
{
    let ghost e = entry_views(entries@);
    let ghost ids = order::ints(idxs@);
    let mut changers: Vec<DriveCluster> = Vec::new();
    let mut drives: Vec<DriveCluster> = Vec::new();
    let mut i: usize = 0;
    assert(cluster_views(changers@) =~= devices(e, ids.take(0), PT_CHANGER));
    assert(cluster_views(drives@) =~= devices(e, ids.take(0), PT_TAPE));
    while i < idxs.len()
        invariant
            i <= idxs@.len(),
            e == entry_views(entries@),
            ids == order::ints(idxs@),
            forall|j: int| 0 <= j < idxs@.len() ==> #[trigger] idxs@[j] < entries@.len(),
            cluster_views(changers@) == devices(e, ids.take(i as int), PT_CHANGER),
            cluster_views(drives@) == devices(e, ids.take(i as int), PT_TAPE),
        decreases idxs@.len() - i,
    {
        let x = &entries[idxs[i]];
        proof {
            assert(ids.take(i + 1).drop_last() =~= ids.take(i as int));
            assert(ids.take(i + 1).last() == idxs@[i as int] as int);
            assert(e[idxs@[i as int] as int] == x@);
        }
        if let Ok(info) = &x.inquiry {
            if info.peripheral_type == PT_CHANGER {
                add_path_to_cluster(&mut changers, info, x);
            } else if info.peripheral_type == PT_TAPE {
                add_path_to_cluster(&mut drives, info, x);
            }
        }
        i += 1;
    }
    assert(ids.take(i as int) =~= ids);
    let changer_info = if changers.len() == 0 {
        None
    } else {
        Some(changers[0].info.dup())
    };
    let mut changer_paths: Vec<SgEntry> = Vec::new();
    let ghost cs = cluster_views(changers@);
    let mut j: usize = 0;
    assert(entry_views(changer_paths@) =~= all_paths(cs.take(0)));
    while j < changers.len()
        invariant
            j <= changers@.len(),
            cs == cluster_views(changers@),
            entry_views(changer_paths@) == all_paths(cs.take(j as int)),
        decreases changers@.len() - j,
    {
        proof {
            assert(cs.take(j + 1).drop_last() =~= cs.take(j as int));
            assert(cs.take(j + 1).last() == changers@[j as int]@);
        }
        let mut more = dup_entries(&changers[j].paths);
        let ghost a = changer_paths@;
        let ghost b = more@;
        changer_paths.append(&mut more);
        assert(entry_views(changer_paths@) =~= entry_views(a) + entry_views(b));
        j += 1;
    }
    assert(cs.take(j as int) =~= cs);
    Library { changer_info, changer_paths, drives }
}

fn push_closed(out: &mut Vec<u64>, s: &str)
    ensures
        final(out)@ == old(out)@ + closed_codes(s@),
{
    let v = text::chars(s);
    let ghost o = out@;
    let ghost w = s@.map_values(|c: char| (c as u64 + 1) as u64);
    let mut i: usize = 0;
    assert(o + w.take(0) =~= o);
    while i < v.len()
        invariant
            v@ == s@,
            i <= v@.len(),
            w == s@.map_values(|c: char| (c as u64 + 1) as u64),
            out@ == o + w.take(i as int),
        decreases v@.len() - i,
    {
        let c: char = v[i];
        proof {
            text::lemma_char_code(c);
        }
        out.push(c as u64 + 1);
        assert(o + w.take(i + 1) =~= (o + w.take(i as int)).push(w[i as int]));
        i += 1;
    }
    assert(w.take(i as int) =~= w);
    out.push(0);
    assert(out@ =~= o + closed_codes(s@));
}

fn key_of_library(l: &Library) -> (r: Vec<u64>)
    ensures
        r@ == library_key(l@),
{
    let mut k: Vec<u64> = Vec::new();
    match &l.changer_info {
        Some(i) => {
            k.push(0);
            push_closed(&mut k, i.vendor.as_str());
            push_closed(&mut k, i.product.as_str());
        },
        None => {
            k.push(1);
            let none = String::new();
            push_closed(&mut k, none.as_str());
            push_closed(&mut k, none.as_str());
        },
    }
    assert(k@ =~= library_key(l@));
    k
}

fn dup_library(l: &Library) -> (r: Library)
    ensures
        r@ == l@,
{
    let mut drives: Vec<DriveCluster> = Vec::new();
    let mut i: usize = 0;
    while i < l.drives.len()
        invariant
            i <= l.drives@.len(),
            drives@.len() == i,
            forall|j: int| 0 <= j < i ==> (#[trigger] drives@[j])@ == l.drives@[j]@,
        decreases l.drives@.len() - i,
    {
        drives.push(l.drives[i].dup());
        i += 1;
    }
    assert(cluster_views(drives@) =~= cluster_views(l.drives@));
    Library {
        changer_info: match &l.changer_info {
            Some(i) => Some(i.dup()),
            None => None,
        },
        changer_paths: dup_entries(&l.changer_paths),
        drives,
    }
}

/// Finds out which nodes make up which library. Nodes belong together that share a target, an
/// identifier, or vendor, product and serial number, directly or through others.
pub fn build_libraries(entries: &Vec<SgEntry>) -> (r: Vec<Library>)
    ensures
        library_views(r@) == libraries(entry_views(entries@)),
{
    let ghost e = entry_views(entries@);
    let n = entries.len();
    let mut uf = UnionFind::new(n);
    let mut k1: Vec<Option<Vec<u64>>> = Vec::new();
    let mut k2: Vec<Option<Vec<u64>>> = Vec::new();
    let mut k3: Vec<Option<Vec<u64>>> = Vec::new();
    let mut i: usize = 0;
    while i < n
        invariant
            i <= n == entries@.len(),
            e == entry_views(entries@),
            k1@.len() == i,
            k2@.len() == i,
            k3@.len() == i,
            forall|j: int| 0 <= j < i ==> opt_keys(k1@)[j] == e[j].target_key(),
            forall|j: int| 0 <= j < i ==> opt_keys(k2@)[j] == e[j].id_key(),
            forall|j: int| 0 <= j < i ==> opt_keys(k3@)[j] == e[j].serial_key(),
        decreases n - i,
    {
        let x = &entries[i];
        let ghost a1 = opt_keys(k1@);
        let ghost a2 = opt_keys(k2@);
        let ghost a3 = opt_keys(k3@);
        k1.push(x.target_key());
        k2.push(x.id_key());
        k3.push(x.serial_key());
        assert(opt_keys(k1@) =~= a1.push(e[i as int].target_key()));
        assert(opt_keys(k2@) =~= a2.push(e[i as int].id_key()));
        assert(opt_keys(k3@) =~= a3.push(e[i as int].serial_key()));
        i += 1;
    }
    assert(opt_keys(k1@) =~= e.map_values(|x: EntryView| x.target_key()));
    assert(opt_keys(k2@) =~= e.map_values(|x: EntryView| x.id_key()));
    assert(opt_keys(k3@) =~= e.map_values(|x: EntryView| x.serial_key()));
    union_by_key(&mut uf, k1);
    union_by_key(&mut uf, k2);
    union_by_key(&mut uf, k3);
    assert(uf@ == library_roots(e));
    let comps = components(&mut uf, n);
    let ghost cv = comps@.map_values(|v: Vec<usize>| order::ints(v@));
    let ghost g = gathered(e);
    let mut libs: Vec<Library> = Vec::new();
    let mut keys: Vec<Vec<u64>> = Vec::new();
    let mut sel: Vec<usize> = Vec::new();
    let mut k: usize = 0;
    assert(g.len() == comps@.len());
    while k < comps.len()
        invariant
            k <= comps@.len() == g.len(),
            n == entries@.len(),
            e == entry_views(entries@),
            g == gathered(e),
            cv == comps@.map_values(|v: Vec<usize>| order::ints(v@)),
            g == cv.map_values(|s: Seq<int>| assembled(e, s)),
            forall|i: int, j: int|
                0 <= i < comps@.len() && 0 <= j < comps@[i]@.len() ==> #[trigger] comps@[i]@[j] < n,
            libs@.len() == k,
            keys@.len() == k,
            sel@.len() == k,
            forall|j: int| 0 <= j < k ==> (#[trigger] libs@[j])@ == g[j],
            forall|j: int| 0 <= j < k ==> (#[trigger] keys@[j])@ == library_key(g[j]),
            forall|j: int| 0 <= j < k ==> #[trigger] sel@[j] == j,
        decreases comps@.len() - k,
    {
        assert forall|j: int| 0 <= j < comps@[k as int]@.len() implies #[trigger] comps@[k as int]@[j]
            < entries@.len() by {}
        let l = assemble_library(entries, &comps[k]);
        assert(l@ == g[k as int]);
        keys.push(key_of_library(&l));
        libs.push(l);
        sel.push(k);
        k += 1;
    }
    assert(order::key_views(keys@) =~= g.map_values(|l: LibraryView| library_key(l)));
    assert(order::ints(sel@) =~= Seq::new(g.len(), |i: int| i));
    let ord = order::sort_by_key(&keys, &sel);
    let mut out: Vec<Library> = Vec::new();
    let mut m: usize = 0;
    while m < ord.len()
        invariant
            m <= ord@.len(),
            libs@.len() == keys@.len() == g.len(),
            forall|j: int| 0 <= j < g.len() ==> (#[trigger] libs@[j])@ == g[j],
            forall|i: int| 0 <= i < ord@.len() ==> #[trigger] ord@[i] < keys@.len(),
            out@.len() == m,
            forall|j: int| 0 <= j < m ==> (#[trigger] out@[j])@ == g[ord@[j] as int],
        decreases ord@.len() - m,
    {
        out.push(dup_library(&libs[ord[m]]));
        m += 1;
    }
    assert(library_views(out@) =~= libraries(e));
    out
}

/// The library has a changer or a drive.
pub open spec fn worth_showing(l: LibraryView) -> bool {
    l.changer_info is Some || l.drives.len() > 0
}

/// Whether the library has a changer or a drive.
pub fn shows(l: &Library) -> (r: bool)
    ensures
        r == worth_showing(l@),
{
    l.changer_info.is_some() || l.drives.len() > 0
}

/// The first changer path on the target of `drive`.
pub open spec fn paired(drive: EntryView, changers: Seq<EntryView>) -> Option<Seq<char>>
    decreases changers.len(),
{
    if changers.len() == 0 {
        None
    } else if drive.target_key() is Some && changers[0].target_key() == drive.target_key() {
        Some(changers[0].path)
    } else {
        paired(drive, changers.drop_first())
    }
}

fn same_target(a: &Option<Hctl>, b: &Hctl) -> (r: bool)
    ensures
        r == (a matches Some(h) && h.host == b.host && h.channel == b.channel && h.target
            == b.target),
{
    match a {
        Some(h) => h.host == b.host && h.channel == b.channel && h.target == b.target,
        None => false,
    }
}

proof fn lemma_target_key(a: EntryView, b: EntryView)
    requires
        b.hctl is Some,
    ensures
        (a.target_key() == b.target_key()) == (a.hctl matches Some(h) && h.host == b.hctl->0.host
            && h.channel == b.hctl->0.channel && h.target == b.hctl->0.target),
{
    if a.hctl is Some && a.target_key() == b.target_key() {
        let x = a.target_key()->0;
        let y = b.target_key()->0;
        assert(x[0] == y[0] && x[1] == y[1] && x[2] == y[2]);
    }
}

/// The changer path that shares its SCSI target with a drive: the drive's control path.
pub fn paired_changer_path(drive: &SgEntry, changers: &[SgEntry]) -> (r: Option<String>)
    ensures
        opt_text(r) == paired(drive@, entry_views(changers@)),
{
    let ghost s = entry_views(changers@);
    let ghost d = drive@;
    let dh = match drive.hctl {
        Some(h) => h,
        None => {
            proof {
                lemma_unpaired(d, s);
            }
            return None;
        },
    };
    let mut i: usize = 0;
    assert(s.skip(0) =~= s);
    while i < changers.len()
        invariant
            i <= changers@.len(),
            d == drive@,
            s == entry_views(changers@),
            drive.hctl == Some(dh),
            paired(d, s) == paired(d, s.skip(i as int)),
        decreases changers@.len() - i,
    {
        proof {
            assert(s.skip(i as int).drop_first() =~= s.skip(i + 1));
            assert(s.skip(i as int)[0] == changers@[i as int]@);
            lemma_target_key(changers@[i as int]@, d);
        }
        if same_target(&changers[i].hctl, &dh) {
            return Some(changers[i].path.clone());
        }
        i += 1;
    }
    None
}

proof fn lemma_unpaired(d: EntryView, s: Seq<EntryView>)
    requires
        d.hctl is None,
    ensures
        paired(d, s) is None,
    decreases s.len(),
{
    if s.len() > 0 {
        lemma_unpaired(d, s.drop_first());
    }
}

/// The name of a kind of device.
pub open spec fn role(t: u8) -> Seq<char> {
    if t == PT_TAPE {
        "驱动器"@
    } else if t == PT_CHANGER {
        "换带器"@
    } else if t == 0x00 {
        "块设备"@
    } else if t == 0x05 {
        "光驱"@
    } else if t == 0x0C {
        "阵列控制器"@
    } else if t == 0x0D {
        "SES 机箱"@
    } else {
        "其它"@
    }
}

/// What kind of device a peripheral type is.
pub fn role_label_cn(t: u8) -> (r: &'static str)
    ensures
        r@ == role(t),
{
    match t {
        PT_TAPE => "驱动器",
        PT_CHANGER => "换带器",
        0x00 => "块设备",
        0x05 => "光驱",
        0x0C => "阵列控制器",
        0x0D => "SES 机箱",
        _ => "其它",
    }
}

/// The position that a name of the form `host:channel:target:unit` describes.
pub open spec fn hctl_of(name: Seq<char>) -> Option<Hctl> {
    let p = text::split(name, ':');
    let max = u32::MAX as nat;
    if p.len() == 4 && text::parse_number(p[0], max) is Some && text::parse_number(p[1], max) is Some
        && text::parse_number(p[2], max) is Some && text::parse_number(p[3], max) is Some {
        Some(
            Hctl {
                host: text::parse_number(p[0], max)->0 as u32,
                channel: text::parse_number(p[1], max)->0 as u32,
                target: text::parse_number(p[2], max)->0 as u32,
                lun: text::parse_number(p[3], max)->0 as u32,
            },
        )
    } else {
        None
    }
}

/// Reads a position of the form `host:channel:target:unit`.
pub fn parse_hctl(name: &str) -> (r: Option<Hctl>)
    ensures
        r == hctl_of(name@),
{
    let p = text::split_at_each(name, ':');
    assert(text::views(p@).len() == p@.len());
    if p.len() != 4 {
        return None;
    }
    let max: u64 = 0xffff_ffff;
    assert(text::views(p@)[0] == p@[0]@);
    assert(text::views(p@)[1] == p@[1]@);
    assert(text::views(p@)[2] == p@[2]@);
    assert(text::views(p@)[3] == p@[3]@);
    match (
        text::number(p[0], max),
        text::number(p[1], max),
        text::number(p[2], max),
        text::number(p[3], max),
    ) {
        (Some(host), Some(channel), Some(target), Some(lun)) => {
            proof {
                text::lemma_number_bound(p@[0]@, max as nat);
                text::lemma_number_bound(p@[1]@, max as nat);
                text::lemma_number_bound(p@[2]@, max as nat);
                text::lemma_number_bound(p@[3]@, max as nat);
            }
            Some(
                Hctl {
                    host: host as u32,
                    channel: channel as u32,
                    target: target as u32,
                    lun: lun as u32,
                },
            )
        },
        _ => None,
    }
}

/// A text, or null where there is none.
pub open spec fn opt_doc(s: Option<Seq<char>>) -> JsonView {
    match s {
        Some(t) => JsonView::Str(t),
        None => JsonView::Null,
    }
}

/// A device as an object.
pub open spec fn info_fields(i: InfoView) -> Map<Seq<char>, JsonView> {
    Map::empty().insert("vendor"@, JsonView::Str(i.vendor)).insert(
        "product"@,
        JsonView::Str(i.product),
    ).insert("revision"@, JsonView::Str(i.revision)).insert("serial"@, opt_doc(i.serial))
}

/// A drive as an object: itself, its node and its control path.
pub open spec fn drive_doc(d: ClusterView, changers: Seq<EntryView>) -> JsonView {
    JsonView::Obj(
        info_fields(d.info).insert(
            "device"@,
            if d.paths.len() > 0 {
                JsonView::Str(d.paths[0].path)
            } else {
                JsonView::Null
            },
        ).insert(
            "control_path"@,
            if d.paths.len() > 0 {
                opt_doc(paired(d.paths[0], changers))
            } else {
                JsonView::Null
            },
        ),
    )
}

/// A library as an object.
pub open spec fn library_doc(l: LibraryView) -> JsonView {
    JsonView::Obj(
        Map::empty().insert(
            "changer"@,
            match l.changer_info {
                Some(i) => JsonView::Obj(info_fields(i)),
                None => JsonView::Null,
            },
        ).insert(
            "drives"@,
            JsonView::Arr(
                l.drives.map_values(|d: ClusterView| drive_doc(d, l.changer_paths)),
            ),
        ),
    )
}

/// All the libraries as one object.
pub open spec fn libraries_doc(l: Seq<LibraryView>) -> JsonView {
    JsonView::Obj(
        Map::empty().insert(
            "libraries"@,
            JsonView::Arr(l.map_values(|x: LibraryView| library_doc(x))),
        ),
    )
}

fn opt_json(s: &Option<String>) -> (r: Json)
    ensures
        r@ == opt_doc(opt_text(*s)),
{
    match s {
        Some(t) => Json::str_of(t.as_str()),
        None => Json::Null,
    }
}

fn info_json(i: &InquiryInfo) -> (r: Fields)
    ensures
        r@ == info_fields(i@),
{
    Fields::new().with("vendor", Json::str_of(i.vendor.as_str())).with(
        "product",
        Json::str_of(i.product.as_str()),
    ).with("revision", Json::str_of(i.revision.as_str())).with("serial", opt_json(&i.serial))
}

fn library_json(l: &Library) -> (r: Json)
    ensures
        r@ == library_doc(l@),
{
    let changer = match &l.changer_info {
        Some(i) => info_json(i).done(),
        None => Json::Null,
    };
    let ghost want = l@.drives.map_values(|d: ClusterView| drive_doc(d, l@.changer_paths));
    let mut items = Items::new();
    let mut i: usize = 0;
    while i < l.drives.len()
        invariant
            i <= l.drives@.len(),
            want == l@.drives.map_values(|d: ClusterView| drive_doc(d, l@.changer_paths)),
            items@ == want.take(i as int),
        decreases l.drives@.len() - i,
    {
        let d = &l.drives[i];
        assert(entry_views(d.paths@).len() == d.paths@.len());
        let (device, control) = if d.paths.len() > 0 {
            assert(entry_views(d.paths@)[0] == d.paths@[0]@);
            (
                Json::str_of(d.paths[0].path.as_str()),
                opt_json(&paired_changer_path(&d.paths[0], l.changer_paths.as_slice())),
            )
        } else {
            (Json::Null, Json::Null)
        };
        items.push(
            info_json(&d.info).with("device", device).with("control_path", control).done(),
        );
        assert(want.take(i + 1) =~= want.take(i as int).push(want[i as int]));
        i += 1;
    }
    assert(want.take(i as int) =~= want);
    Fields::new().with("changer", changer).with("drives", items.done()).done()
}

/// All the libraries as one object. Each drive carries its own node and its control path, the
/// changer node on the same target.
pub fn build_json(libraries: &Vec<Library>) -> (r: Json)
    ensures
        r@ == libraries_doc(library_views(libraries@)),
{
    let ghost want = library_views(libraries@).map_values(|x: LibraryView| library_doc(x));
    let mut items = Items::new();
    let mut i: usize = 0;
    while i < libraries.len()
        invariant
            i <= libraries@.len(),
            want == library_views(libraries@).map_values(|x: LibraryView| library_doc(x)),
            items@ == want.take(i as int),
        decreases libraries@.len() - i,
    {
        items.push(library_json(&libraries[i]));
        assert(want.take(i + 1) =~= want.take(i as int).push(want[i as int]));
        i += 1;
    }
    assert(want.take(i as int) =~= want);
    Fields::new().with("libraries", items.done()).done()
}

/// No device is reached by both clusters.
pub open spec fn apart(a: ClusterView, b: ClusterView) -> bool {
    forall|p: int, q: int|
        0 <= p < a.paths.len() && 0 <= q < b.paths.len() ==> !same_device(
            #[trigger] a.paths[p],
            #[trigger] b.paths[q],
        )
}

/// No device is in two clusters.
pub open spec fn all_apart(s: Seq<ClusterView>) -> bool {
    forall|a: int, b: int| 0 <= a < b < s.len() ==> #[trigger] apart(s[a], s[b])
}

/// A cluster holds the path.
pub open spec fn is_held(s: Seq<ClusterView>, x: EntryView) -> bool {
    exists|k: int| 0 <= k < s.len() && (#[trigger] s[k]).paths.contains(x)
}

proof fn lemma_apart_flip(a: ClusterView, b: ClusterView)
    requires
        apart(a, b),
    ensures
        apart(b, a),
{
    assert forall|p: int, q: int|
        0 <= p < b.paths.len() && 0 <= q < a.paths.len() implies !same_device(
        #[trigger] b.paths[p],
        #[trigger] a.paths[q],
    ) by {
        assert(!same_device(a.paths[q], b.paths[p]));
    }
}

/// Each of `those` is one of all, on its side.
proof fn lemma_those(s: Seq<ClusterView>, e: EntryView, r: bool, k: int) -> (m: int)
    requires
        0 <= k < those(s, e, r).len(),
    ensures
        0 <= m < s.len(),
        s[m] == those(s, e, r)[k],
        reaches(s[m], e) == r,
    decreases s.len(),
{
    let t = those(s.drop_last(), e, r);
    if k < t.len() {
        lemma_those(s.drop_last(), e, r, k)
    } else {
        s.len() - 1
    }
}

/// And each of all is among `those` of its side.
proof fn lemma_in_those(s: Seq<ClusterView>, e: EntryView, m: int) -> (k: int)
    requires
        0 <= m < s.len(),
    ensures
        0 <= k < those(s, e, reaches(s[m], e)).len(),
        those(s, e, reaches(s[m], e))[k] == s[m],
    decreases s.len(),
{
    let r = reaches(s[m], e);
    if m == s.len() - 1 {
        those(s.drop_last(), e, r).len() as int
    } else {
        assert(s.drop_last()[m] == s[m]);
        lemma_in_those(s.drop_last(), e, m)
    }
}

proof fn lemma_those_apart(s: Seq<ClusterView>, e: EntryView)
    requires
        all_apart(s),
    ensures
        all_apart(those(s, e, false)),
        forall|k: int, l: int|
            0 <= k < those(s, e, true).len() && 0 <= l < those(s, e, false).len()
                ==> #[trigger] apart(those(s, e, true)[k], those(s, e, false)[l]),
    decreases s.len(),
{
    if s.len() > 0 {
        let t = s.drop_last();
        let c = s.last();
        assert forall|a: int, b: int| 0 <= a < b < t.len() implies #[trigger] apart(t[a], t[b]) by {
            assert(apart(s[a], s[b]));
        }
        lemma_those_apart(t, e);
        assert forall|k: int, r: bool| 0 <= k < those(t, e, r).len() implies apart(
            #[trigger] those(t, e, r)[k],
            c,
        ) && apart(c, those(t, e, r)[k]) by {
            let m = lemma_those(t, e, r, k);
            assert(apart(s[m], s[s.len() - 1]));
            lemma_apart_flip(s[m], c);
        }
        assert forall|a: int, b: int|
            0 <= a < b < those(s, e, false).len() implies #[trigger] apart(
            those(s, e, false)[a],
            those(s, e, false)[b],
        ) by {
            let u = those(t, e, false);
            if b < u.len() {
                assert(apart(u[a], u[b]));
            } else {
                assert(those(s, e, false)[a] == u[a]);
            }
        }
        assert forall|k: int, l: int|
            0 <= k < those(s, e, true).len() && 0 <= l < those(s, e, false).len() implies apart(
            #[trigger] those(s, e, true)[k],
            #[trigger] those(s, e, false)[l],
        ) by {
            let h = those(t, e, true);
            let u = those(t, e, false);
            if k < h.len() && l < u.len() {
                assert(apart(h[k], u[l]));
            } else if k < h.len() {
                assert(those(s, e, true)[k] == h[k]);
            } else {
                assert(those(s, e, false)[l] == u[l]);
            }
        }
    }
}

proof fn lemma_all_paths(s: Seq<ClusterView>, p: int) -> (k: int)
    requires
        0 <= p < all_paths(s).len(),
    ensures
        0 <= k < s.len(),
        s[k].paths.contains(all_paths(s)[p]),
    decreases s.len(),
{
    let t = all_paths(s.drop_last());
    if p < t.len() {
        lemma_all_paths(s.drop_last(), p)
    } else {
        assert(s.last().paths[p - t.len()] == all_paths(s)[p]);
        s.len() - 1
    }
}

proof fn lemma_has_path(s: Seq<ClusterView>, k: int, x: EntryView)
    requires
        0 <= k < s.len(),
        s[k].paths.contains(x),
    ensures
        all_paths(s).contains(x),
    decreases s.len(),
{
    let t = all_paths(s.drop_last());
    if k < s.len() - 1 {
        lemma_has_path(s.drop_last(), k, x);
        let i = t.index_of(x);
        assert(all_paths(s)[i] == x);
    } else {
        let i = s.last().paths.index_of(x);
        assert(all_paths(s)[t.len() + i] == x);
    }
}

proof fn lemma_before(s: Seq<ClusterView>, e: EntryView)
    ensures
        before(s, e) <= those(s, e, false).len(),
    decreases s.len(),
{
    if s.len() > 0 {
        let t = s.drop_last();
        lemma_before(t, e);
        lemma_before_last(s, e);
    }
}

proof fn lemma_before_last(s: Seq<ClusterView>, e: EntryView)
    requires
        s.len() > 0,
    ensures
        before(s, e) <= before(s.drop_last(), e) + 1,
        reaches(s.last(), e) ==> before(s, e) == before(s.drop_last(), e),
    decreases s.len(),
{
    if !reaches(s[0], e) && s.len() > 1 {
        assert(s.drop_first().drop_last() =~= s.drop_last().drop_first());
        lemma_before_last(s.drop_first(), e);
    } else {
        reveal_with_fuel(before, 2);
    }
}

proof fn lemma_with_path(s: Seq<ClusterView>, info: InfoView, e: EntryView)
    requires
        all_apart(s),
    ensures
        all_apart(with_path(s, info, e)),
        is_held(with_path(s, info, e), e),
        forall|x: EntryView| #[trigger] is_held(s, x) ==> is_held(with_path(s, info, e), x),
{
    let home = those(s, e, true);
    let u = those(s, e, false);
    let w = with_path(s, info, e);
    if home.len() == 0 {
        let c = w[s.len() as int];
        assert(c.paths[0] == e);
        assert forall|a: int, b: int| 0 <= a < b < w.len() implies #[trigger] apart(w[a], w[b]) by {
            if b < s.len() {
                assert(apart(s[a], s[b]));
            } else {
                if reaches(s[a], e) {
                    let k = lemma_in_those(s, e, a);
                }
                assert forall|p: int, q: int|
                    0 <= p < w[a].paths.len() && 0 <= q < c.paths.len() implies !same_device(
                    #[trigger] w[a].paths[p],
                    #[trigger] c.paths[q],
                ) by {
                    assert(w[a] == s[a]);
                }
            }
        }
        assert forall|x: EntryView| #[trigger] is_held(s, x) implies is_held(w, x) by {
            let k = choose|k: int| 0 <= k < s.len() && (#[trigger] s[k]).paths.contains(x);
            assert(w[k].paths.contains(x));
        }
    } else {
        let n = before(s, e) as int;
        let c = ClusterView { info: home[0].info, paths: all_paths(home).push(e) };
        lemma_before(s, e);
        lemma_those_apart(s, e);
        assert(w[n] == c);
        assert(c.paths[all_paths(home).len() as int] == e);
        assert forall|l: int| 0 <= l < u.len() implies apart(#[trigger] u[l], c) && apart(
            c,
            u[l],
        ) by {
            let m = lemma_those(s, e, false, l);
            assert forall|p: int, q: int|
                0 <= p < u[l].paths.len() && 0 <= q < c.paths.len() implies !same_device(
                #[trigger] u[l].paths[p],
                #[trigger] c.paths[q],
            ) by {
                if q < all_paths(home).len() {
                    let k = lemma_all_paths(home, q);
                    let z = home[k].paths.index_of(c.paths[q]);
                    assert(home[k].paths.contains(c.paths[q]));
                    assert(apart(home[k], u[l]));
                    assert(!same_device(home[k].paths[z], u[l].paths[p]));
                }
            }
            lemma_apart_flip(u[l], c);
        }
        assert forall|a: int, b: int| 0 <= a < b < w.len() implies #[trigger] apart(w[a], w[b]) by {
            let i = if a < n {
                a
            } else {
                a - 1
            };
            let j = if b < n {
                b
            } else {
                b - 1
            };
            if a == n {
                assert(w[b] == u[j]);
            } else if b == n {
                assert(w[a] == u[i]);
            } else {
                assert(w[a] == u[i] && w[b] == u[j]);
                assert(apart(u[i], u[j]));
            }
        }
        assert forall|x: EntryView| #[trigger] is_held(s, x) implies is_held(w, x) by {
            let m = choose|k: int| 0 <= k < s.len() && (#[trigger] s[k]).paths.contains(x);
            let k = lemma_in_those(s, e, m);
            if reaches(s[m], e) {
                lemma_has_path(home, k, x);
                let z = all_paths(home).index_of(x);
                assert(c.paths[z] == x);
                assert(w[n].paths.contains(x));
            } else if k < n {
                assert(w[k].paths.contains(x));
            } else {
                assert(w[k + 1].paths.contains(x));
            }
        }
        assert(w[n].paths.contains(e));
    }
}

/// The node leads to a device of type `ty`.
pub open spec fn is_of_type(x: EntryView, ty: u8) -> bool {
    x.inquiry matches Ok(i) && i.peripheral_type == ty
}

proof fn lemma_devices(e: Seq<EntryView>, idxs: Seq<int>, ty: u8)
    ensures
        all_apart(devices(e, idxs, ty)),
        forall|i: int|
            0 <= i < idxs.len() && is_of_type(e[#[trigger] idxs[i]], ty) ==> is_held(devices(e, idxs, ty), e[idxs[i]]),
    decreases idxs.len(),
{
    if idxs.len() > 0 {
        let t = idxs.drop_last();
        lemma_devices(e, t, ty);
        let x = e[idxs.last()];
        if x.inquiry is Ok {
            lemma_with_path(devices(e, t, ty), x.inquiry->Ok_0, x);
        }
        assert forall|i: int|
            0 <= i < idxs.len() && is_of_type(e[#[trigger] idxs[i]], ty) implies is_held(devices(e, idxs, ty), e[idxs[i]]) by {
            if i < t.len() {
                assert(t[i] == idxs[i]);
                assert(is_held(devices(e, t, ty), e[t[i]]));
            }
        }
    }
}

/// One cluster holds all the paths of a device: of the nodes of a library that lead to a device of
/// a type each is in a cluster, two that lead to one device are in the same, and no device is in
/// two clusters.
pub proof fn law_one_cluster_holds_all_paths(
    e: Seq<EntryView>,
    idxs: Seq<int>,
    ty: u8,
    i: int,
    j: int,
)
    requires
        0 <= i < idxs.len(),
        0 <= j < idxs.len(),
        is_of_type(e[idxs[i]], ty),
        is_of_type(e[idxs[j]], ty),
        same_device(e[idxs[i]], e[idxs[j]]),
    ensures
        all_apart(devices(e, idxs, ty)),
        exists|k: int|
            0 <= k < devices(e, idxs, ty).len() && (#[trigger] devices(e, idxs, ty)[k]).paths.contains(
                e[idxs[i]],
            ) && devices(e, idxs, ty)[k].paths.contains(e[idxs[j]]),
{
    let s = devices(e, idxs, ty);
    let x = e[idxs[i]];
    let y = e[idxs[j]];
    lemma_devices(e, idxs, ty);
    assert(is_held(s, x) && is_held(s, y));
    let a = choose|k: int| 0 <= k < s.len() && (#[trigger] s[k]).paths.contains(x);
    let b = choose|k: int| 0 <= k < s.len() && (#[trigger] s[k]).paths.contains(y);
    let p = s[a].paths.index_of(x);
    let q = s[b].paths.index_of(y);
    if a != b {
        if a < b {
            assert(apart(s[a], s[b]));
            assert(!same_device(s[a].paths[p], s[b].paths[q]));
        } else {
            assert(apart(s[b], s[a]));
            assert(!same_device(s[b].paths[q], s[a].paths[p]));
        }
    }
}

proof fn lemma_key_in_range(r: union_find::Roots, keys: Seq<Option<order::Key>>)
    requires
        r.len() == keys.len(),
        union_find::in_range(r),
    ensures
        union_find::in_range(merged_by_key(r, keys)),
        merged_by_key(r, keys).len() == r.len(),
{
    let ks = key_or_empty(keys);
    let sel = keyed(keys);
    let l = order::by_key(ks, sel);
    let pairs = equal_neighbours(ks, l);
    lemma_keyed(keys);
    order::lemma_by_key(ks, sel);
    lemma_pairs(ks, l);
    assert forall|k: int| 0 <= k < pairs.len() implies 0 <= (#[trigger] pairs[k]).0 < r.len() && 0
        <= pairs[k].1 < r.len() by {
        let p = pairs[k];
        assert(l.contains(p.0) && l.contains(p.1));
        assert(sel.contains(p.0) && sel.contains(p.1));
    }
    union_find::lemma_merged_in_range(r, pairs);
}

proof fn lemma_member(roots: union_find::Roots, r: int, n: int, i: int)
    requires
        0 <= i < n,
        roots[i] == r,
    ensures
        members(roots, r, n).contains(i),
    decreases n,
{
    if i == n - 1 {
        let m = members(roots, r, n);
        assert(m[m.len() - 1] == i);
    } else {
        lemma_member(roots, r, n - 1, i);
        let m = members(roots, r, n - 1);
        let k = m.index_of(i);
        assert(members(roots, r, n)[k] == i);
    }
}

proof fn lemma_set_of(roots: union_find::Roots, k: int, r: int) -> (m: int)
    requires
        0 <= r < k,
        members(roots, r, roots.len() as int).len() > 0,
    ensures
        0 <= m < sets(roots, k).len(),
        sets(roots, k)[m] == members(roots, r, roots.len() as int),
    decreases k,
{
    if r == k - 1 {
        sets(roots, k).len() - 1
    } else {
        lemma_set_of(roots, k - 1, r)
    }
}

/// Two nodes that lead to one drive are paths of one cluster of one library, whichever of them
/// reports an identifier.
pub proof fn law_paths_of_a_drive_are_together(e: Seq<EntryView>, i: int, j: int)
    requires
        0 <= i < e.len(),
        0 <= j < e.len(),
        is_of_type(e[i], PT_TAPE),
        is_of_type(e[j], PT_TAPE),
        (e[i].lu_id is Some && e[i].lu_id == e[j].lu_id) || (e[i].serial_key() is Some
            && e[i].serial_key() == e[j].serial_key()),
    ensures
        exists|l: int, k: int|
            0 <= l < libraries(e).len() && 0 <= k < libraries(e)[l].drives.len() && (
            #[trigger] libraries(e)[l].drives[k]).paths.contains(e[i])
                && libraries(e)[l].drives[k].paths.contains(e[j]),
{
    let n = e.len() as int;
    let roots = library_roots(e);
    law_shared_keys_share_a_library(e, i, j);
    let k1 = e.map_values(|x: EntryView| x.target_key());
    let k2 = e.map_values(|x: EntryView| x.id_key());
    let k3 = e.map_values(|x: EntryView| x.serial_key());
    let r0 = union_find::apart(e.len());
    lemma_key_in_range(r0, k1);
    lemma_key_in_range(merged_by_key(r0, k1), k2);
    lemma_key_in_range(merged_by_key(merged_by_key(r0, k1), k2), k3);
    let r = roots[i];
    lemma_member(roots, r, n, i);
    lemma_member(roots, r, n, j);
    let set = members(roots, r, n);
    let m = lemma_set_of(roots, n, r);
    let a = set.index_of(i);
    let b = set.index_of(j);
    law_one_cluster_holds_all_paths(e, set, PT_TAPE, a, b);
    let g = gathered(e);
    assert(g[m] == assembled(e, set));
    let keys = g.map_values(|l: LibraryView| library_key(l));
    let all = Seq::new(g.len(), |i: int| i);
    order::lemma_by_key(keys, all);
    assert(all[m] == m);
    assert(all.contains(m));
    let ord = order::by_key(keys, all);
    assert(ord.contains(m));
    let l = ord.index_of(m);
    assert(libraries(e)[l] == g[m]);
    let d = devices(e, set, PT_TAPE);
    let k = choose|k: int|
        0 <= k < d.len() && (#[trigger] d[k]).paths.contains(e[i]) && d[k].paths.contains(e[j]);
    assert(libraries(e)[l].drives[k].paths.contains(e[i]));
}

} // verus!
