//! What a listing of a directory shows.
use vstd::prelude::*;

use crate::daemon::files;
use crate::daemon::files::{Children, DirEntry, Flight, Infos, NodeRow, ServiceView, ServingView};
use crate::daemon::nodes;
use crate::daemon::paths;
use crate::daemon::paths::InFlight;
use crate::engine::volume_state::PendingState;
use crate::strmap;
use crate::text;

verus! {

/// The path stands directly under the directory, under this name.
pub open spec fn is_child(prefix: Seq<char>, q: Seq<char>, name: Seq<char>) -> bool {
    name.len() > 0 && !name.contains('/') && q == prefix + name
}

/// The path lies deeper: under something of this name in the directory.
pub open spec fn is_deeper(prefix: Seq<char>, q: Seq<char>, name: Seq<char>) -> bool {
    !name.contains('/') && text::has_prefix(q, prefix + name + "/"@)
}

proof fn lemma_entered(
    out: Children,
    prefix: Seq<char>,
    q: Seq<char>,
    committed: Option<u64>,
    flight: Option<Flight>,
    name: Seq<char>,
)
    ensures
        ({
            let m = files::entered(out, prefix, q, committed, flight);
            &&& m.contains_key(name) <==> out.contains_key(name) || is_child(prefix, q, name)
                || is_deeper(prefix, q, name)
            &&& !is_child(prefix, q, name) && out.contains_key(name) ==> m[name] == out[name]
            &&& is_deeper(prefix, q, name) && !out.contains_key(name) ==> m[name] is Dir
            &&& is_child(prefix, q, name) ==> m[name] == (if !out.contains_key(name) {
                DirEntry::File { committed, in_flight: flight }
            } else {
                match out[name] {
                    DirEntry::Dir => DirEntry::Dir,
                    DirEntry::File { committed: c, in_flight: f } => DirEntry::File {
                        committed: if c is Some {
                            c
                        } else {
                            committed
                        },
                        in_flight: if f is Some {
                            f
                        } else {
                            flight
                        },
                    },
                }
            })
        }),
{
    reveal_strlit("/");
    let rest = q.skip(prefix.len() as int);
    let i = text::first(rest, '/') as int;
    let top = prefix + name + "/"@;
    text::lemma_first(rest, '/');
    if text::has_prefix(q, prefix) {
        assert(q =~= prefix + rest);
    }
    if is_child(prefix, q, name) {
        assert(q.take(prefix.len() as int) =~= prefix);
        assert(rest =~= name);
        assert(i == rest.len());
        if is_deeper(prefix, q, name) {
            assert(q.len() == top.len() - 1);
        }
    }
    if is_deeper(prefix, q, name) {
        assert(q.take(prefix.len() as int) =~= top.take(prefix.len() as int));
        assert(top.take(prefix.len() as int) =~= prefix);
        let n = name.len() as int;
        assert forall|k: int| 0 <= k < n implies rest[k] == name[k] by {
            assert(q.take(top.len() as int)[prefix.len() + k] == top[prefix.len() + k]);
        }
        assert(q.take(top.len() as int)[prefix.len() + n] == top[prefix.len() + n]);
        assert(rest[n] == '/');
        assert(i == n) by {
            if i < n {
                assert(name[i] == '/');
                assert(name.contains('/'));
            }
        }
        assert(rest.take(i) =~= name);
    }
    if text::has_prefix(q, prefix) && rest.len() > 0 {
        if i < rest.len() && name == rest.take(i) {
            assert(!name.contains('/')) by {
                if name.contains('/') {
                    let k = choose|k: int| 0 <= k < name.len() && name[k] == '/';
                    assert(rest[k] == '/');
                }
            }
            assert(q.take(top.len() as int) =~= top);
            assert(is_deeper(prefix, q, name));
        }
        if i == rest.len() && name == rest {
            assert(is_child(prefix, q, name));
        }
    }
}

/// The directory at the prefix has a directory of this name: one is there, or something lies under
/// it.
pub open spec fn has_directory(infos: Infos, prefix: Seq<char>, name: Seq<char>) -> bool {
    !name.contains('/') && exists|p: Seq<char>| #[trigger]
        infos.contains_key(p) && (text::has_prefix(p, prefix + name + "/"@) || (infos[p].directory
            && p == prefix + name))
}

/// The directory at the prefix has a file of this name.
pub open spec fn has_file(infos: Infos, prefix: Seq<char>, name: Seq<char>) -> bool {
    name.len() > 0 && !name.contains('/') && infos.contains_key(prefix + name) && !infos[prefix
        + name].directory
}

/// What the nodes say of one name.
pub open spec fn shown(out: Children, infos: Infos, prefix: Seq<char>, name: Seq<char>) -> bool {
    &&& out.contains_key(name) <==> has_file(infos, prefix, name) || has_directory(
        infos,
        prefix,
        name,
    )
    &&& out.contains_key(name) ==> match out[name] {
        DirEntry::Dir => has_directory(infos, prefix, name),
        DirEntry::File { committed, in_flight } => {
            &&& has_file(infos, prefix, name)
            &&& committed == Some(infos[prefix + name].len)
            &&& in_flight is None
        },
    }
}

proof fn lemma_children(prefix: Seq<char>, keys: Seq<Seq<char>>, infos: Infos, name: Seq<char>)
    requires
        forall|i: int| 0 <= i < keys.len() ==> infos.contains_key(#[trigger] keys[i]),
    ensures
        shown(
            files::children_of(prefix, keys, infos),
            infos.restrict(keys.to_set()),
            prefix,
            name,
        ),
    decreases keys.len(),
{
    reveal_strlit("/");
    let some = infos.restrict(keys.to_set());
    let all = files::children_of(prefix, keys, infos);
    if keys.len() == 0 {
        assert(!has_directory(some, prefix, name));
    } else {
        let rest = keys.drop_last();
        let p = keys.last();
        let was = infos.restrict(rest.to_set());
        let out = files::children_of(prefix, rest, infos);
        assert forall|i: int| 0 <= i < rest.len() implies infos.contains_key(#[trigger] rest[i]) by {
            assert(keys[i] == rest[i]);
        }
        lemma_children(prefix, rest, infos, name);
        assert(keys[keys.len() - 1] == p);
        assert forall|x: Seq<char>| #[trigger] some.contains_key(x) <==> was.contains_key(x) || x
            == p by {
            if keys.contains(x) {
                let i = choose|i: int| 0 <= i < keys.len() && keys[i] == x;
                if i < rest.len() {
                    assert(rest[i] == x);
                }
            }
            if rest.contains(x) {
                let i = choose|i: int| 0 <= i < rest.len() && rest[i] == x;
                assert(keys[i] == x);
            }
            assert(keys.contains(p));
            if was.contains_key(x) {
                assert(keys.contains(x));
            }
        }
        assert(some.contains_key(p));
        let q = if infos[p].directory {
            p + "/"@
        } else {
            p
        };
        let committed = if infos[p].directory {
            None
        } else {
            Some(infos[p].len)
        };
        lemma_entered(out, prefix, q, committed, None, name);
        let top = prefix + name + "/"@;
        let mine = !name.contains('/') && (text::has_prefix(p, top) || (infos[p].directory && p
            == prefix + name));
        assert(has_directory(some, prefix, name) <==> has_directory(was, prefix, name) || mine) by {
            if has_directory(was, prefix, name) {
                let x = choose|x: Seq<char>| #[trigger]
                    was.contains_key(x) && (text::has_prefix(x, top) || (was[x].directory && x
                        == prefix + name));
                assert(some.contains_key(x));
            }
            if has_directory(some, prefix, name) {
                let x = choose|x: Seq<char>| #[trigger]
                    some.contains_key(x) && (text::has_prefix(x, top) || (some[x].directory && x
                        == prefix + name));
                if x != p {
                    assert(was.contains_key(x));
                }
            }
        }
        if infos[p].directory {
            assert(!is_child(prefix, q, name)) by {
                if is_child(prefix, q, name) {
                    assert(q[q.len() - 1] == '/');
                    assert(name[name.len() - 1] == '/');
                }
            }
            assert(is_deeper(prefix, q, name) <==> mine) by {
                if text::has_prefix(p, top) {
                    assert(q.take(top.len() as int) =~= p.take(top.len() as int));
                }
                if p == prefix + name {
                    assert(q.take(top.len() as int) =~= top);
                }
                if text::has_prefix(q, top) {
                    if q.len() == top.len() {
                        assert(q.take(top.len() as int) =~= q);
                        assert(p =~= q.take(q.len() - 1));
                        assert(prefix + name =~= top.take(top.len() - 1));
                    } else {
                        assert(p.take(top.len() as int) =~= q.take(top.len() as int));
                    }
                }
            }
            assert(has_file(some, prefix, name) <==> has_file(was, prefix, name)) by {
                assert(some.contains_key(prefix + name) <==> was.contains_key(prefix + name)
                    || prefix + name == p);
            }
        } else {
            assert(is_deeper(prefix, q, name) <==> mine);
            assert(has_file(some, prefix, name) <==> has_file(was, prefix, name) || is_child(
                prefix,
                q,
                name,
            )) by {
                assert(some.contains_key(prefix + name) <==> was.contains_key(prefix + name)
                    || prefix + name == p);
            }
        }
    }
}

/// The change under way on a path as a listing marks it, where it is no change of the namespace.
pub open spec fn flight_on(s: ServingView, p: Seq<char>) -> Option<Flight> {
    if s.volume.current.pending.contains_key(p) && !s.namespace_pending.contains(p) {
        let e = s.volume.current.pending[p];
        Some(
            Flight {
                kind: if e.removal {
                    InFlight::Deleting
                } else if e.state == PendingState::Ready {
                    InFlight::Staged
                } else {
                    InFlight::Uploading
                },
                len: e.staged_len,
            },
        )
    } else {
        None
    }
}

/// Without the changes that have only begun, a listing shows for each name what the committed nodes
/// say, and the change under way on a file.
pub open spec fn marked_right(
    out: Children,
    committed: Children,
    s: ServingView,
    prefix: Seq<char>,
    name: Seq<char>,
    seen: bool,
) -> bool {
    &&& out.contains_key(name) <==> committed.contains_key(name)
    &&& committed.contains_key(name) ==> match committed[name] {
        DirEntry::Dir => out[name] is Dir,
        DirEntry::File { committed: c, in_flight: f } => out[name] == (DirEntry::File {
            committed: c,
            in_flight: if seen && flight_on(s, prefix + name) is Some {
                flight_on(s, prefix + name)
            } else {
                f
            },
        }),
    }
}

proof fn lemma_marked(
    committed: Children,
    s: ServingView,
    prefix: Seq<char>,
    keys: Seq<Seq<char>>,
    name: Seq<char>,
)
    requires
        forall|i: int|
            0 <= i < keys.len() ==> s.volume.current.pending.contains_key(#[trigger] keys[i]),
    ensures
        marked_right(
            files::with_flights(committed, s, prefix, keys, false),
            committed,
            s,
            prefix,
            name,
            keys.contains(prefix + name),
        ),
    decreases keys.len(),
{
    if keys.len() > 0 {
        let rest = keys.drop_last();
        let p = keys.last();
        assert forall|i: int| 0 <= i < rest.len() implies s.volume.current.pending.contains_key(
            #[trigger] rest[i],
        ) by {
            assert(keys[i] == rest[i]);
        }
        lemma_marked(committed, s, prefix, rest, name);
        assert(keys[keys.len() - 1] == p);
        assert(keys.contains(prefix + name) <==> rest.contains(prefix + name) || prefix + name
            == p) by {
            if keys.contains(prefix + name) {
                let i = choose|i: int| 0 <= i < keys.len() && keys[i] == prefix + name;
                if i < rest.len() {
                    assert(rest[i] == prefix + name);
                }
            }
            if rest.contains(prefix + name) {
                let i = choose|i: int| 0 <= i < rest.len() && rest[i] == prefix + name;
                assert(keys[i] == prefix + name);
            }
            assert(keys.contains(p));
        }
        let f = files::flight_of(s.volume.current.pending[p]);
        assert(!s.namespace_pending.contains(p) ==> flight_on(s, p) == Some(f));
        let n = p.skip(prefix.len() as int);
        if text::has_prefix(p, prefix) {
            assert(prefix + n =~= p);
        }
        if prefix + name == p {
            assert(p.take(prefix.len() as int) =~= prefix);
            assert(n =~= name);
        }
    }
}

/// Whether something that has only begun brings this name into the directory.
pub open spec fn brings(s: ServingView, prefix: Seq<char>, p: Seq<char>, name: Seq<char>) -> bool {
    !s.namespace_pending.contains(p) && (is_child(prefix, p, name) || is_deeper(prefix, p, name))
}

proof fn lemma_pending_shown(
    committed: Children,
    s: ServingView,
    prefix: Seq<char>,
    keys: Seq<Seq<char>>,
    name: Seq<char>,
)
    requires
        forall|i: int|
            0 <= i < keys.len() ==> s.volume.current.pending.contains_key(#[trigger] keys[i]),
        committed.contains_key(name) && committed[name] is File ==> committed[name]->in_flight is None,
    ensures
        ({
            let out = files::with_flights(committed, s, prefix, keys, true);
            let p = prefix + name;
            let mine = keys.contains(p) && !s.namespace_pending.contains(p) && is_child(
                prefix,
                p,
                name,
            );
            &&& out.contains_key(name) <==> committed.contains_key(name) || exists|i: int|
                0 <= i < keys.len() && brings(s, prefix, #[trigger] keys[i], name)
            &&& committed.contains_key(name) && committed[name] is Dir ==> out[name] is Dir
            &&& committed.contains_key(name) && committed[name] is File ==> out[name] == (
            DirEntry::File {
                committed: committed[name]->committed,
                in_flight: if mine {
                    flight_on(s, p)
                } else {
                    None
                },
            })
            &&& !committed.contains_key(name) && out.contains_key(name) ==> match out[name] {
                DirEntry::Dir => exists|i: int|
                    0 <= i < keys.len() && !s.namespace_pending.contains(#[trigger] keys[i])
                        && is_deeper(prefix, keys[i], name),
                DirEntry::File { committed: c, in_flight: f } => {
                    c is None && mine && f == flight_on(s, p)
                },
            }
        }),
    decreases keys.len(),
{
    if keys.len() > 0 {
        let rest = keys.drop_last();
        let k = keys.last();
        let p = prefix + name;
        assert forall|i: int| 0 <= i < rest.len() implies s.volume.current.pending.contains_key(
            #[trigger] rest[i],
        ) by {
            assert(keys[i] == rest[i]);
        }
        lemma_pending_shown(committed, s, prefix, rest, name);
        let m = files::with_flights(committed, s, prefix, rest, true);
        let f = files::flight_of(s.volume.current.pending[k]);
        lemma_entered(m, prefix, k, None, Some(f), name);
        assert(keys[keys.len() - 1] == k);
        assert(!s.namespace_pending.contains(k) ==> flight_on(s, k) == Some(f));
        assert(keys.contains(p) <==> rest.contains(p) || p == k) by {
            if keys.contains(p) {
                let i = choose|i: int| 0 <= i < keys.len() && keys[i] == p;
                if i < rest.len() {
                    assert(rest[i] == p);
                }
            }
            if rest.contains(p) {
                let i = choose|i: int| 0 <= i < rest.len() && rest[i] == p;
                assert(keys[i] == p);
            }
            assert(keys.contains(k));
        }
        assert(is_child(prefix, k, name) <==> k == p && is_child(prefix, p, name));
        assert(forall|i: int| 0 <= i < rest.len() ==> #[trigger] rest[i] == keys[i]);
        let out = files::with_flights(committed, s, prefix, keys, true);
        if exists|i: int| 0 <= i < rest.len() && brings(s, prefix, #[trigger] rest[i], name) {
            let i = choose|i: int| 0 <= i < rest.len() && brings(s, prefix, #[trigger] rest[i], name);
            assert(brings(s, prefix, keys[i], name));
        }
        if exists|i: int| 0 <= i < keys.len() && brings(s, prefix, #[trigger] keys[i], name) {
            let i = choose|i: int| 0 <= i < keys.len() && brings(s, prefix, #[trigger] keys[i], name);
            if i < rest.len() {
                assert(brings(s, prefix, rest[i], name));
            }
        }
        if !committed.contains_key(name) && m.contains_key(name) && m[name] is Dir {
            let i = choose|i: int|
                0 <= i < rest.len() && !s.namespace_pending.contains(#[trigger] rest[i])
                    && is_deeper(prefix, rest[i], name);
            assert(is_deeper(prefix, keys[i], name));
        }
        if !s.namespace_pending.contains(k) && is_deeper(prefix, k, name) {
            assert(is_deeper(prefix, keys[keys.len() - 1], name));
        }
    }
}

/// The nodes that count as live: those of the served tape that are not deleted, and of the
/// directory those of which the served tape says nothing.
pub proof fn law_live_nodes(v: ServiceView, rows: Seq<NodeRow>, p: Seq<char>)
    requires
        forall|i: int, j: int|
            0 <= i < j < rows.len() ==> (#[trigger] rows[i]).path@ != (#[trigger] rows[j]).path@,
    ensures
        ({
            let all = v.all_nodes(rows);
            let here = v.serving is Some && v.serving->0.recent.contains_key(p);
            let st = v.serving->0.recent[p];
            &&& here ==> {
                &&& all.contains_key(p) <==> !st.deleted
                &&& all.contains_key(p) ==> all[p].len == st.len && all[p].directory
                    == nodes::dir_kind(st.metadata)
            }
            &&& !here ==> {
                &&& all.contains_key(p) <==> exists|i: int|
                    0 <= i < rows.len() && (#[trigger] rows[i]).path@ == p
                &&& forall|i: int|
                    0 <= i < rows.len() && (#[trigger] rows[i]).path@ == p ==> all[p]
                        == rows[i].info
            }
        }),
{
    match v.serving {
        Some(s) => lemma_rows(files::live_here(s.recent), s.recent, rows, p),
        None => lemma_rows(Map::empty(), Map::empty(), rows, p),
    }
}

proof fn lemma_rows(
    base: Infos,
    recent: Map<Seq<char>, crate::daemon::files::StatView>,
    rows: Seq<NodeRow>,
    p: Seq<char>,
)
    requires
        forall|i: int, j: int|
            0 <= i < j < rows.len() ==> (#[trigger] rows[i]).path@ != (#[trigger] rows[j]).path@,
    ensures
        ({
            let m = files::with_rows(base, recent, rows);
            &&& base.contains_key(p) ==> m.contains_key(p) && m[p] == base[p]
            &&& recent.contains_key(p) && recent[p].deleted && !base.contains_key(p)
                ==> !m.contains_key(p)
            &&& !base.contains_key(p) && !(recent.contains_key(p) && recent[p].deleted) ==> {
                &&& m.contains_key(p) <==> exists|i: int|
                    0 <= i < rows.len() && (#[trigger] rows[i]).path@ == p
                &&& forall|i: int|
                    0 <= i < rows.len() && (#[trigger] rows[i]).path@ == p ==> m[p] == rows[i].info
            }
        }),
    decreases rows.len(),
{
    if rows.len() > 0 {
        let rest = rows.drop_last();
        assert(forall|i: int| 0 <= i < rest.len() ==> #[trigger] rest[i] == rows[i]);
        assert forall|i: int, j: int| 0 <= i < j < rest.len() implies (#[trigger] rest[i]).path@ != (
        #[trigger] rest[j]).path@ by {
            assert(rows[i].path@ != rows[j].path@);
        }
        lemma_rows(base, recent, rest, p);
        assert(rows[rows.len() - 1] == rows.last());
        if exists|i: int| 0 <= i < rest.len() && (#[trigger] rest[i]).path@ == p {
            let i = choose|i: int| 0 <= i < rest.len() && (#[trigger] rest[i]).path@ == p;
            assert(rows[i].path@ == p);
            assert(rows[i].path@ != rows[rows.len() - 1].path@);
        }
        if exists|i: int| 0 <= i < rows.len() && (#[trigger] rows[i]).path@ == p {
            let i = choose|i: int| 0 <= i < rows.len() && (#[trigger] rows[i]).path@ == p;
            if i < rest.len() {
                assert(rest[i].path@ == p);
            }
        }
        assert forall|i: int| 0 <= i < rows.len() && (#[trigger] rows[i]).path@ == p
            && !base.contains_key(p) && !(recent.contains_key(p)
            && recent[p].deleted) implies files::with_rows(base, recent, rows)[p] == rows[i].info by {
            if i < rest.len() {
                assert(rest[i] == rows[i]);
            } else {
                assert forall|j: int| 0 <= j < rest.len() implies (#[trigger] rest[j]).path@ != p by {
                    assert(rows[j].path@ != rows[i].path@);
                }
            }
        }
    }
}

/// A listing shows each name that directly under the directory a live file or directory has, or that
/// something deeper makes a directory; a file with the length of its committed version and with the
/// change under way on it. On request it shows what has only begun as well, without a committed
/// version. Nothing else is shown. A path that is no directory and under which nothing is has no
/// listing, and a file has none.
pub proof fn law_listing_shows_the_directory(
    v: ServiceView,
    dir: Seq<char>,
    pending: bool,
    rows: Seq<NodeRow>,
    name: Seq<char>,
)
    requires
        v.all_nodes(rows).dom().finite(),
        v.serving is Some ==> v.serving->0.volume.current.pending.dom().finite(),
    ensures
        ({
            let key = if files::is_root(dir) {
                Seq::empty()
            } else {
                paths::normal(dir)
            };
            let prefix = key + "/"@;
            let infos = v.all_nodes(rows);
            let r = v.dir_listing(dir, pending, rows);
            let s = v.serving->0;
            let begun = pending && v.serving is Some && exists|p: Seq<char>| #[trigger]
                s.volume.current.pending.contains_key(p) && brings(s, prefix, p, name);
            let out = (r->Ok_0)->0;
            &&& infos.contains_key(key) && !infos[key].directory ==> r is Err
            &&& r is Ok && r->Ok_0 is None ==> {
                &&& !infos.contains_key(key) && !files::is_root(dir)
                &&& !has_file(infos, prefix, name) && !has_directory(infos, prefix, name) && !begun
            }
            &&& r is Ok && r->Ok_0 is Some ==> {
                &&& out.contains_key(name) <==> has_file(infos, prefix, name) || has_directory(
                    infos,
                    prefix,
                    name,
                ) || begun
                &&& out.contains_key(name) ==> match out[name] {
                    DirEntry::Dir => has_directory(infos, prefix, name) || begun,
                    DirEntry::File { committed, in_flight } => {
                        &&& committed is Some <==> has_file(infos, prefix, name)
                        &&& committed is Some ==> committed->0 == infos[prefix + name].len
                        &&& in_flight == (if v.serving is Some {
                            flight_on(s, prefix + name)
                        } else {
                            None
                        })
                        &&& committed is None ==> in_flight is Some
                    },
                }
                &&& has_directory(infos, prefix, name) && !has_file(infos, prefix, name)
                    ==> out[name] is Dir
            }
        }),
{
    let key = if files::is_root(dir) {
        Seq::empty()
    } else {
        paths::normal(dir)
    };
    let prefix = key + "/"@;
    let infos = v.all_nodes(rows);
    let keys = strmap::sorted_keys(infos);
    strmap::lemma_sorted_keys_list(infos);
    assert forall|i: int| 0 <= i < keys.len() implies infos.contains_key(#[trigger] keys[i]) by {
        assert(keys.contains(keys[i]));
    }
    lemma_children(prefix, keys, infos, name);
    assert(infos.restrict(keys.to_set()) =~= infos) by {
        assert forall|p: Seq<char>| infos.contains_key(p) implies keys.to_set().contains(p) by {
            assert(keys.contains(p));
        }
    }
    let committed = files::children_of(prefix, keys, infos);
    if v.serving is Some {
        let s = v.serving->0;
        let m = s.volume.current.pending;
        let ps = strmap::sorted_keys(m);
        strmap::lemma_sorted_keys_list(m);
        assert forall|i: int| 0 <= i < ps.len() implies m.contains_key(#[trigger] ps[i]) by {
            assert(ps.contains(ps[i]));
        }
        assert(ps.contains(prefix + name) <==> m.contains_key(prefix + name));
        if pending {
            lemma_pending_shown(committed, s, prefix, ps, name);
            if exists|p: Seq<char>| #[trigger] m.contains_key(p) && brings(s, prefix, p, name) {
                let p = choose|p: Seq<char>| #[trigger]
                    m.contains_key(p) && brings(s, prefix, p, name);
                assert(ps.contains(p));
                let i = choose|i: int| 0 <= i < ps.len() && ps[i] == p;
                assert(brings(s, prefix, ps[i], name));
            }
            if exists|i: int| 0 <= i < ps.len() && brings(s, prefix, #[trigger] ps[i], name) {
                let i = choose|i: int| 0 <= i < ps.len() && brings(s, prefix, #[trigger] ps[i], name);
                assert(m.contains_key(ps[i]));
            }
            let out = files::with_flights(committed, s, prefix, ps, true);
            if out.contains_key(name) && out[name] is Dir && !committed.contains_key(name) {
                let i = choose|i: int|
                    0 <= i < ps.len() && !s.namespace_pending.contains(#[trigger] ps[i])
                        && is_deeper(prefix, ps[i], name);
                assert(m.contains_key(ps[i]));
                assert(brings(s, prefix, ps[i], name));
            }
            if committed.contains_key(name) && committed[name] is File {
                assert(is_child(prefix, prefix + name, name));
            }
        } else {
            lemma_marked(committed, s, prefix, ps, name);
        }
    }
}

} // verus!
