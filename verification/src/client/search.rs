//! Finding the node that serves: the order in which nodes are asked, and what their answers mean.
use vstd::prelude::*;

use crate::client::reply::{ClientError, ClientErrorView};
use crate::json::{Json, JsonView};
use crate::text;

verus! {

/// A client of a cluster.
#[derive(Debug, Clone)]
pub struct Client {
    /// The addresses of all nodes.
    pub endpoints: Vec<String>,
    /// The node that served last; it is asked first.
    pub leader: Option<String>,
    /// Milliseconds for which a request is tried while no node serves.
    pub retry_for: u64,
    /// Milliseconds of one exchange.
    pub io_timeout: u64,
}

#[verifier::ext_equal]
pub struct ClientView {
    pub endpoints: Seq<Seq<char>>,
    pub leader: Option<Seq<char>>,
    pub retry_for: u64,
    pub io_timeout: u64,
}

impl View for Client {
    type V = ClientView;

    open spec fn view(&self) -> ClientView {
        ClientView {
            endpoints: text::string_views(self.endpoints@),
            leader: match self.leader {
                Some(s) => Some(s@),
                None => None,
            },
            retry_for: self.retry_for,
            io_timeout: self.io_timeout,
        }
    }
}

/// A way through the nodes: the order, and how far it has come.
#[derive(Debug)]
pub struct Search {
    pub order: Vec<String>,
    pub next: usize,
    /// What the last node said.
    pub last: String,
}

#[verifier::ext_equal]
pub struct SearchView {
    pub order: Seq<Seq<char>>,
    pub next: int,
    pub last: Seq<char>,
}

impl View for Search {
    type V = SearchView;

    open spec fn view(&self) -> SearchView {
        SearchView {
            order: text::string_views(self.order@),
            next: self.next as int,
            last: self.last@,
        }
    }
}

impl SearchView {
    pub open spec fn wf(self) -> bool {
        0 <= self.next <= self.order.len()
    }

    /// The way with a hint put next, unless the node is on it already.
    pub open spec fn hinted(self, hint: Seq<char>) -> SearchView {
        if self.order.contains(hint) {
            self
        } else {
            SearchView { order: self.order.insert(self.next, hint), ..self }
        }
    }
}

/// The addresses without one.
pub open spec fn others(v: Seq<Seq<char>>, a: Seq<char>) -> Seq<Seq<char>>
    decreases v.len(),
{
    if v.len() == 0 {
        Seq::empty()
    } else if v.last() == a {
        others(v.drop_last(), a)
    } else {
        others(v.drop_last(), a).push(v.last())
    }
}

impl ClientView {
    /// The order in which nodes are asked: the one that served last, and the rest.
    pub open spec fn order(self) -> Seq<Seq<char>> {
        match self.leader {
            None => self.endpoints,
            Some(l) => seq![l] + others(self.endpoints, l),
        }
    }

    /// The client after it learned that a node does not serve.
    pub open spec fn without(self, addr: Seq<char>) -> ClientView {
        ClientView {
            leader: if self.leader == Some(addr) {
                None
            } else {
                self.leader
            },
            ..self
        }
    }
}

/// The address in a hint: without the scheme.
pub open spec fn address_in(url: Seq<char>) -> Seq<char>
    decreases url.len(),
{
    if "http://"@.len() > 0 && text::has_prefix(url, "http://"@) {
        address_in(url.skip("http://"@.len() as int))
    } else {
        url
    }
}

fn hint_address(url: &str) -> (r: String)
    ensures
        r@ == address_in(url@),
{
    proof {
        reveal_strlit("http://");
    }
    let mut t = url.to_owned();
    while text::starts_with(t.as_str(), "http://")
        invariant
            address_in(url@) == address_in(t@),
            "http://"@.len() == 7,
        decreases t@.len(),
    {
        t = text::skip_chars(t.as_str(), 7);
    }
    t
}

/// What a node that does not serve says, and the way after it.
pub open spec fn turned_away(s: SearchView, addr: Seq<char>, j: JsonView) -> SearchView {
    let told = SearchView {
        last: addr + " 不在服务: "@ + (match j.text_in("detail"@) {
            Some(d) => d,
            None => ""@,
        }),
        ..s
    };
    match j.text_in("leader_url"@) {
        Some(u) => told.hinted(address_in(u)),
        None => told,
    }
}

/// What an exchange came to.
#[derive(Debug, Clone, Copy, PartialEq, Eq, Structural)]
pub enum After {
    /// The next node is asked.
    GoOn,
    /// The answer is taken.
    Take,
    /// The request may have been carried out: the failure goes to whoever sent it.
    GiveUp,
}

fn holds(v: &Vec<String>, a: &str) -> (r: bool)
    ensures
        r == text::string_views(v@).contains(a@),
{
    let ghost all = text::string_views(v@);
    let mut i: usize = 0;
    while i < v.len()
        invariant
            i <= v@.len(),
            all == text::string_views(v@),
            forall|j: int| 0 <= j < i ==> #[trigger] all[j] != a@,
        decreases v@.len() - i,
    {
        if text::same(v[i].as_str(), a) {
            assert(all[i as int] == a@);
            return true;
        }
        i += 1;
    }
    false
}

impl Client {
    /// A client that knows these nodes.
    pub fn new(endpoints: Vec<String>) -> (r: Self)
        ensures
            r@ == (ClientView {
                endpoints: text::string_views(endpoints@),
                leader: None,
                retry_for: 60_000,
                io_timeout: 600_000,
            }),
    {
        Client { endpoints, leader: None, retry_for: 60_000, io_timeout: 600_000 }
    }

    /// The way through the nodes, from the beginning.
    pub fn begin(&self, last: String) -> (r: Search)
        ensures
            r@ == (SearchView { order: self@.order(), next: 0, last: last@ }),
            r@.wf(),
    {
        let mut order: Vec<String> = Vec::new();
        match &self.leader {
            Some(l) => {
                order.push(l.clone());
            },
            None => {},
        }
        let ghost head = text::string_views(order@);
        let ghost all = text::string_views(self.endpoints@);
        let ghost l = self@.leader;
        let mut i: usize = 0;
        proof {
            if l is Some {
                assert(head =~= seq![l->0]);
                assert(head + others(all.take(0), l->0) =~= head);
            } else {
                assert(head =~= Seq::<Seq<char>>::empty());
                assert(all.take(0) =~= Seq::<Seq<char>>::empty());
            }
        }
        while i < self.endpoints.len()
            invariant
                i <= self.endpoints@.len(),
                all == text::string_views(self.endpoints@),
                l == self@.leader,
                text::string_views(order@) == (match l {
                    None => all.take(i as int),
                    Some(x) => seq![x] + others(all.take(i as int), x),
                }),
            decreases self.endpoints@.len() - i,
        {
            let known = match &self.leader {
                Some(x) => text::same(x.as_str(), self.endpoints[i].as_str()),
                None => false,
            };
            let ghost was = text::string_views(order@);
            assert(all.take(i + 1).drop_last() =~= all.take(i as int));
            if !known {
                let a = self.endpoints[i].clone();
                order.push(a);
                assert(text::string_views(order@) =~= was.push(a@));
                proof {
                    match l {
                        None => {
                            assert(all.take(i + 1) =~= all.take(i as int).push(a@));
                        },
                        Some(x) => {
                            assert(seq![x] + others(all.take(i as int), x).push(a@) =~= was.push(
                                a@,
                            ));
                        },
                    }
                }
            }
            i += 1;
        }
        assert(all.take(i as int) =~= all);
        Search { order, next: 0, last }
    }

    /// The next node, where there is one.
    pub fn next_node(&self, s: &mut Search) -> (r: Option<String>)
        requires
            old(s)@.wf(),
        ensures
            final(s)@.wf(),
            match r {
                Some(a) => {
                    &&& old(s)@.next < old(s)@.order.len()
                    &&& a@ == old(s)@.order[old(s)@.next]
                    &&& final(s)@ == (SearchView { next: old(s)@.next + 1, ..old(s)@ })
                },
                None => old(s)@.next == old(s)@.order.len() && final(s)@ == old(s)@,
            },
    {
        if s.next < s.order.len() {
            let a = s.order[s.next].clone();
            s.next = s.next + 1;
            Some(a)
        } else {
            None
        }
    }

    /// A node has answered. One that does not serve may name another, which is asked next.
    pub fn answered(&mut self, s: &mut Search, addr: &str, status: u16, j: &Json) -> (r: After)
        requires
            old(s)@.wf(),
        ensures
            final(s)@.wf(),
            if status == 503 {
                &&& r == After::GoOn
                &&& final(s)@ == turned_away(old(s)@, addr@, j@)
                &&& final(self)@ == old(self)@.without(addr@)
            } else {
                &&& r == After::Take
                &&& final(s)@ == old(s)@
                &&& final(self)@ == (ClientView { leader: Some(addr@), ..old(self)@ })
            },
    {
        if status != 503 {
            self.leader = Some(addr.to_owned());
            return After::Take;
        }
        let detail = match j.text_in("detail") {
            Some(d) => d,
            None => "".to_owned(),
        };
        s.last = text::cat3(addr, " 不在服务: ", detail.as_str());
        match j.text_in("leader_url") {
            Some(url) => {
                let hint = hint_address(url.as_str());
                if !holds(&s.order, hint.as_str()) {
                    let ghost was = s.order@;
                    let at = s.next;
                    s.order.insert(at, hint);
                    assert(text::string_views(s.order@) =~= text::string_views(was).insert(
                        at as int,
                        hint@,
                    ));
                }
            },
            None => {},
        }
        self.forget(addr);
        After::GoOn
    }

    fn forget(&mut self, addr: &str)
        ensures
            final(self)@ == old(self)@.without(addr@),
    {
        let known = match &self.leader {
            Some(l) => text::same(l.as_str(), addr),
            None => false,
        };
        if known {
            self.leader = None;
        }
    }

    /// A node could not be reached, or the exchange broke off. Once the request may have arrived
    /// with content, or part of an answer may have been passed on, no other node is asked.
    pub fn broke_off(&mut self, s: &mut Search, addr: &str, sent: bool, carries: bool, e: &str) -> (r:
        After)
        requires
            old(s)@.wf(),
        ensures
            final(s)@.wf(),
            final(self)@ == old(self)@.without(addr@),
            r == (if sent && carries {
                After::GiveUp
            } else {
                After::GoOn
            }),
            final(s)@ == (if sent && carries {
                old(s)@
            } else {
                SearchView { last: addr@ + ": "@ + e@, ..old(s)@ }
            }),
    {
        self.forget(addr);
        if sent && carries {
            return After::GiveUp;
        }
        s.last = text::cat3(addr, ": ", e);
        After::GoOn
    }

    /// All nodes have been asked: none serves. Once the time is up that is the outcome; until then
    /// they are asked again.
    pub fn all_asked(&self, s: &Search, time_up: bool) -> (r: Option<ClientError>)
        ensures
            match r {
                Some(e) => time_up && e@ == ClientErrorView::NoLeader(s@.last),
                None => !time_up,
            },
    {
        if time_up {
            Some(ClientError::NoLeader(s.last.clone()))
        } else {
            None
        }
    }
}

/// Every node that the client knows is on the way.
pub proof fn law_every_node_is_asked(c: ClientView, a: Seq<char>)
    requires
        c.endpoints.contains(a),
    ensures
        c.order().contains(a),
{
    match c.leader {
        None => {},
        Some(l) => {
            if a == l {
                assert(c.order()[0] == a);
            } else {
                lemma_others(c.endpoints, l, a);
                let o = others(c.endpoints, l);
                let i = choose|i: int| 0 <= i < o.len() && o[i] == a;
                assert(c.order()[i + 1] == a);
            }
        },
    }
}

proof fn lemma_others(v: Seq<Seq<char>>, l: Seq<char>, a: Seq<char>)
    requires
        v.contains(a),
        a != l,
    ensures
        others(v, l).contains(a),
    decreases v.len(),
{
    let init = v.drop_last();
    let o = others(init, l);
    if v.last() == a {
        assert(o.push(a)[o.len() as int] == a);
    } else {
        let i = choose|i: int| 0 <= i < v.len() && v[i] == a;
        assert(init[i] == a);
        lemma_others(init, l, a);
        let k = choose|k: int| 0 <= k < o.len() && o[k] == a;
        assert(o.push(v.last())[k] == a);
    }
}

/// A node that is named by one that does not serve is asked next, or is on the way already.
pub proof fn law_hint_is_followed(s: SearchView, addr: Seq<char>, j: JsonView)
    requires
        s.wf(),
        j.text_in("leader_url"@) is Some,
    ensures
        ({
            let hint = address_in(j.text_in("leader_url"@)->0);
            let after = turned_away(s, addr, j);
            &&& after.wf()
            &&& after.order.contains(hint)
            &&& !s.order.contains(hint) ==> after.order[after.next] == hint
        }),
{
    let hint = address_in(j.text_in("leader_url"@)->0);
    let after = turned_away(s, addr, j);
    if !s.order.contains(hint) {
        assert(after.order == s.order.insert(s.next, hint));
        assert(after.order[s.next] == hint);
    }
}

} // verus!
