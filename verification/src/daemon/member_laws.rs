//! What the list of members of a cluster comes to.
use vstd::prelude::*;

use crate::daemon::members;
use crate::text;

verus! {

/// The number of a member as it is written.
pub open spec fn number_of(s: Seq<char>) -> u64 {
    text::parse_number((members::member(s)->0).0, u64::MAX as nat)->0 as u64
}

/// A list of members is accepted just where every text has an equals sign, and what is told of one
/// that is not accepted is its first text without.
pub proof fn law_when_members_are_accepted(v: Seq<Seq<char>>)
    ensures
        members::members(v) is Ok <==> forall|i: int|
            0 <= i < v.len() ==> (#[trigger] v[i]).contains('='),
        members::members(v) matches Err(s) ==> exists|i: int|
            0 <= i < v.len() && #[trigger] v[i] == s && !s.contains('=') && forall|j: int|
                0 <= j < i ==> (#[trigger] v[j]).contains('='),
    decreases v.len(),
{
    if v.len() > 0 {
        let prev = v.drop_last();
        law_when_members_are_accepted(prev);
        lemma_has_sign(v.last());
        if members::members(prev) is Ok {
            if members::member(v.last()) is None {
                assert(v[v.len() - 1] == v.last());
            }
            assert forall|j: int| 0 <= j < prev.len() implies (#[trigger] v[j]).contains('=') by {
                assert(prev[j] == v[j]);
            }
        } else {
            let s = members::members(prev)->Err_0;
            let i = choose|i: int|
                0 <= i < prev.len() && #[trigger] prev[i] == s && !s.contains('=') && forall|j: int|
                    0 <= j < i ==> (#[trigger] prev[j]).contains('=');
            assert(v[i] == s);
            assert forall|j: int| 0 <= j < i implies (#[trigger] v[j]).contains('=') by {
                assert(prev[j] == v[j]);
            }
        }
    }
}

proof fn lemma_has_sign(s: Seq<char>)
    ensures
        members::member(s) is Some <==> s.contains('='),
{
    text::lemma_first(s, '=');
    if s.contains('=') {
        let i = choose|i: int| 0 <= i < s.len() && s[i] == '=';
        assert(s[i] == '=');
    }
}

/// Of the texts that are accepted each names a member with its address, and the last text with a
/// number counts; there are no other members.
pub proof fn law_members_are_those_that_are_named(v: Seq<Seq<char>>, n: u64, i: int)
    requires
        members::members(v) is Ok,
    ensures
        ({
            let m = members::members(v)->Ok_0;
            &&& m.contains_key(n) <==> exists|j: int| 0 <= j < v.len() && number_of(#[trigger] v[j])
                == n
            &&& 0 <= i < v.len() && number_of(v[i]) == n && (forall|j: int|
                i < j < v.len() ==> number_of(#[trigger] v[j]) != n) ==> m[n] == (
            members::member(v[i])->0).1
        }),
    decreases v.len(),
{
    if v.len() > 0 {
        let prev = v.drop_last();
        law_members_are_those_that_are_named(prev, n, i);
        assert(v[v.len() - 1] == v.last());
        assert forall|j: int| 0 <= j < prev.len() implies #[trigger] prev[j] == v[j] by {}
        if members::members(prev)->Ok_0.contains_key(n) {
            let j = choose|j: int| 0 <= j < prev.len() && number_of(#[trigger] prev[j]) == n;
            assert(number_of(v[j]) == n);
        }
        if exists|j: int| 0 <= j < v.len() && number_of(#[trigger] v[j]) == n {
            let j = choose|j: int| 0 <= j < v.len() && number_of(#[trigger] v[j]) == n;
            if j < prev.len() {
                assert(number_of(prev[j]) == n);
            }
        }
        if 0 <= i < prev.len() && number_of(v[i]) == n && (forall|j: int|
            i < j < v.len() ==> number_of(#[trigger] v[j]) != n) {
            assert(number_of(prev[i]) == n);
            assert forall|j: int| i < j < prev.len() implies number_of(#[trigger] prev[j]) != n by {
                assert(number_of(v[j]) != n);
            }
            assert(number_of(v[v.len() - 1]) != n);
        }
    }
}

/// The host of an address with a port is what stands before the port, whatever the host itself
/// holds; an address without a colon is a host.
pub proof fn law_host_stands_before_the_port(host: Seq<char>, port: Seq<char>)
    requires
        !port.contains(':'),
    ensures
        members::host(host.push(':') + port) == host,
        members::host(port) == port,
    decreases port.len(),
{
    let s = host.push(':') + port;
    if port.len() == 0 {
        assert(s =~= host.push(':'));
        assert(s.drop_last() =~= host);
    } else {
        let shorter = port.drop_last();
        assert(port.last() != ':') by {
            assert(port[port.len() - 1] == port.last());
        }
        assert(!shorter.contains(':')) by {
            if shorter.contains(':') {
                let i = choose|i: int| 0 <= i < shorter.len() && shorter[i] == ':';
                assert(port[i] == ':');
            }
        }
        law_host_stands_before_the_port(host, shorter);
        lemma_no_colon(port);
        lemma_colon(host, shorter);
        assert(s.drop_last() =~= host.push(':') + shorter);
        assert(s.last() == port.last());
    }
}

proof fn lemma_no_colon(s: Seq<char>)
    requires
        !s.contains(':'),
    ensures
        members::before_colon(s) is None,
    decreases s.len(),
{
    if s.len() > 0 {
        assert(s[s.len() - 1] == s.last());
        let t = s.drop_last();
        assert(!t.contains(':')) by {
            if t.contains(':') {
                let i = choose|i: int| 0 <= i < t.len() && t[i] == ':';
                assert(s[i] == ':');
            }
        }
        lemma_no_colon(t);
    }
}

proof fn lemma_colon(host: Seq<char>, port: Seq<char>)
    ensures
        members::before_colon(host.push(':') + port) is Some,
    decreases port.len(),
{
    let s = host.push(':') + port;
    if port.len() == 0 {
        assert(s =~= host.push(':'));
    } else {
        lemma_colon(host, port.drop_last());
        assert(s.drop_last() =~= host.push(':') + port.drop_last());
    }
}

/// Two members make no cluster, nor do any that this node is not one of.
pub proof fn law_what_makes_a_cluster(peers: Map<u64, Seq<char>>, me: u64)
    ensures
        members::is_cluster(peers, me) <==> peers.dom().contains(me) && peers.len() > 2,
{
}

} // verus!
