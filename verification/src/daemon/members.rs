//! Who belongs to the cluster, and where its members are reached.
use vstd::prelude::*;

use crate::daemon::request;
use crate::idmap;
use crate::idmap::IdMap;
use crate::text;

verus! {

/// The number of a member and its address.
pub open spec fn member(s: Seq<char>) -> Option<(Seq<char>, Seq<char>)> {
    request::cut(s, '=')
}

/// The text, where it holds an equals sign, has a number before it.
pub open spec fn numbered(s: Seq<char>) -> bool {
    match member(s) {
        Some((id, _)) => text::parse_number(id, u64::MAX as nat) is Some,
        None => true,
    }
}

/// The members that the texts name, the later of two with one number; or the first text without
/// an equals sign.
pub open spec fn members(v: Seq<Seq<char>>) -> Result<Map<u64, Seq<char>>, Seq<char>>
    decreases v.len(),
{
    if v.len() == 0 {
        Ok(Map::empty())
    } else {
        match members(v.drop_last()) {
            Err(s) => Err(s),
            Ok(m) => match member(v.last()) {
                None => Err(v.last()),
                Some((id, addr)) => Ok(
                    m.insert(text::parse_number(id, u64::MAX as nat)->0 as u64, addr),
                ),
            },
        }
    }
}

/// Whether every number of a member can be read.
pub fn are_numbered(list: &Vec<String>) -> (r: bool)
    ensures
        r == (forall|i: int| 0 <= i < list@.len() ==> numbered(#[trigger] list@[i]@)),
{
    let n = list.len();
    let mut i: usize = 0;
    while i < n
        invariant
            i <= n == list@.len(),
            forall|j: int| 0 <= j < i ==> numbered(#[trigger] list@[j]@),
        decreases n - i,
    {
        match request::split_once(list[i].as_str(), '=') {
            Some((id, _)) => {
                if text::number(id.as_str(), u64::MAX).is_none() {
                    assert(!numbered(list@[i as int]@));
                    return false;
                }
            },
            None => {},
        }
        i += 1;
    }
    true
}

proof fn lemma_refusal_stays(v: Seq<Seq<char>>, k: int)
    requires
        0 <= k <= v.len(),
        members(v.take(k)) is Err,
    ensures
        members(v) == members(v.take(k)),
    decreases v.len(),
{
    if k < v.len() {
        assert(v.drop_last().take(k) =~= v.take(k));
        lemma_refusal_stays(v.drop_last(), k);
    } else {
        assert(v.take(k) =~= v);
    }
}

/// Reads the members, each written as a number, an equals sign and an address.
pub fn parse_peers(list: &Vec<String>) -> (r: Result<IdMap<String>, String>)
    requires
        forall|i: int| 0 <= i < list@.len() ==> numbered(#[trigger] list@[i]@),
    ensures
        match members(text::string_views(list@)) {
            Ok(m) => r is Ok && r->Ok_0@ == m,
            Err(s) => r is Err && r->Err_0@ == "--peer 需要 ID=ADDR 形式: "@ + s,
        },
{
    let ghost all = text::string_views(list@);
    let n = list.len();
    let mut out: IdMap<String> = IdMap::new();
    let mut i: usize = 0;
    while i < n
        invariant
            i <= n == list@.len(),
            all == text::string_views(list@),
            forall|j: int| 0 <= j < list@.len() ==> numbered(#[trigger] list@[j]@),
            members(all.take(i as int)) is Ok,
            members(all.take(i as int))->Ok_0 == out@,
        decreases n - i,
    {
        let s = &list[i];
        proof {
            assert(all.take(i + 1).drop_last() =~= all.take(i as int));
            assert(all.take(i + 1).last() == s@);
            assert(numbered(list@[i as int]@));
        }
        match request::split_once(s.as_str(), '=') {
            Some((id, addr)) => {
                match text::number(id.as_str(), u64::MAX) {
                    Some(k) => {
                        let _ = out.insert(k, addr);
                    },
                    None => {},
                }
            },
            None => {
                proof {
                    lemma_refusal_stays(all, i + 1);
                }
                return Err(text::cat2("--peer 需要 ID=ADDR 形式: ", s.as_str()));
            },
        }
        i += 1;
    }
    assert(all.take(n as int) =~= all);
    Ok(out)
}

/// A cluster has three members at least, and this node is one of them.
pub open spec fn is_cluster(peers: Map<u64, Seq<char>>, me: u64) -> bool {
    peers.contains_key(me) && peers.len() >= 3
}

/// Accepts the members of a cluster.
pub fn check_members(peers: &IdMap<String>, me: u64) -> (r: Result<(), String>)
    ensures
        r is Ok <==> is_cluster(peers@, me),
        r is Err ==> r->Err_0@ == "--peer 必须列出包含本节点在内的至少三个成员"@,
{
    let n = peers.len();
    if !peers.contains_key(me) || n < 3 {
        Err("--peer 必须列出包含本节点在内的至少三个成员".to_owned())
    } else {
        Ok(())
    }
}

/// The numbers of the members, in order.
pub fn member_ids(peers: &IdMap<String>) -> (r: Vec<u64>)
    ensures
        r@ == idmap::sorted_keys(peers@),
{
    peers.keys()
}

/// What stands before the last colon.
pub open spec fn before_colon(s: Seq<char>) -> Option<Seq<char>>
    decreases s.len(),
{
    if s.len() == 0 {
        None
    } else if s.last() == ':' {
        Some(s.drop_last())
    } else {
        before_colon(s.drop_last())
    }
}

/// The host of an address: what stands before the last colon, all where there is none.
pub open spec fn host(addr: Seq<char>) -> Seq<char> {
    match before_colon(addr) {
        Some(h) => h,
        None => addr,
    }
}

fn host_of(addr: &str) -> (r: String)
    ensures
        r@ == host(addr@),
{
    let v = text::chars(addr);
    let mut n: usize = v.len();
    assert(addr@.take(n as int) =~= addr@);
    while n > 0
        invariant
            v@ == addr@,
            n <= v@.len(),
            before_colon(addr@) == before_colon(addr@.take(n as int)),
        decreases n,
    {
        assert(addr@.take(n as int).drop_last() =~= addr@.take(n - 1));
        if v[n - 1] == ':' {
            let r = text::text_of(v.as_slice(), 0, n - 1);
            assert(r@ =~= addr@.take(n - 1));
            return r;
        }
        n = n - 1;
    }
    addr.to_owned()
}

/// Where the clients reach the member at `addr`: its host, at the clients' port.
pub fn client_address(addr: &str, port: u16) -> (r: String)
    ensures
        r@ == host(addr@) + ":"@ + text::decimal(port as nat),
{
    text::cat3(host_of(addr).as_str(), ":", text::decimal_text(port as u64).as_str())
}

} // verus!
