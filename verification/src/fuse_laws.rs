//! What a directory shows of its children.
use vstd::prelude::*;

use crate::fuse;
use crate::fuse::{ChildView, DirEntryView, NodeKind, ENOENT, ESTALE};

verus! {

/// The child is no longer there.
pub open spec fn gone(c: ChildView) -> bool {
    !c.is_dir && (c.link matches Err(e) && (e == ENOENT || e == ESTALE))
}

/// The child could not be looked at.
pub open spec fn broken(c: ChildView) -> bool {
    !c.is_dir && c.link is Err && !gone(c)
}

/// The entry is the child: under its name, with its number and its kind.
pub open spec fn shows(e: DirEntryView, c: ChildView) -> bool {
    &&& e.name == c.name
    &&& e.ino == c.ino
    &&& e.kind == NodeKind::Directory <==> c.is_dir
    &&& e.kind == NodeKind::Symlink <==> !c.is_dir && c.link == Ok::<bool, i32>(true)
}

/// How many of the children are still there.
pub open spec fn there(v: Seq<ChildView>) -> nat
    decreases v.len(),
{
    if v.len() == 0 {
        0
    } else {
        there(v.drop_last()) + (if gone(v.last()) {
            0nat
        } else {
            1nat
        })
    }
}

/// A directory is listed just where every child can be looked at or has gone; else what is told is
/// what the first that cannot be looked at gave.
pub proof fn law_when_a_directory_is_listed(ino: u64, parent: u64, children: Seq<ChildView>)
    ensures
        fuse::listed(ino, parent, children) is Ok <==> forall|i: int|
            0 <= i < children.len() ==> !broken(#[trigger] children[i]),
        fuse::listed(ino, parent, children) matches Err(e) ==> exists|i: int|
            0 <= i < children.len() && broken(#[trigger] children[i]) && children[i].link == Err::<
                bool,
                i32,
            >(e) && forall|j: int| 0 <= j < i ==> !broken(#[trigger] children[j]),
    decreases children.len(),
{
    if children.len() > 0 {
        let prev = children.drop_last();
        law_when_a_directory_is_listed(ino, parent, prev);
        assert(children[children.len() - 1] == children.last());
        if fuse::listed(ino, parent, prev) is Ok {
            assert forall|j: int| 0 <= j < prev.len() implies !broken(#[trigger] children[j]) by {
                assert(!broken(prev[j]));
            }
        } else {
            let e = fuse::listed(ino, parent, prev)->Err_0;
            let i = choose|i: int|
                0 <= i < prev.len() && broken(#[trigger] prev[i]) && prev[i].link == Err::<
                    bool,
                    i32,
                >(e) && forall|j: int| 0 <= j < i ==> !broken(#[trigger] prev[j]);
            assert(broken(children[i]));
            assert forall|j: int| 0 <= j < i implies !broken(#[trigger] children[j]) by {
                assert(!broken(prev[j]));
            }
        }
    }
}

/// Behind the directory itself and the one above, a listing has the children that are there, each
/// once and in their order.
pub proof fn law_listing_shows_the_children(
    ino: u64,
    parent: u64,
    children: Seq<ChildView>,
    i: int,
)
    requires
        fuse::listed(ino, parent, children) is Ok,
    ensures
        ({
            let l = fuse::listed(ino, parent, children)->Ok_0;
            &&& l.len() == 2 + there(children)
            &&& 0 <= i < children.len() && !gone(children[i]) ==> 2 + there(children.take(i))
                < l.len() && shows(l[(2 + there(children.take(i))) as int], children[i])
        }),
    decreases children.len(),
{
    if children.len() > 0 {
        let prev = children.drop_last();
        law_listing_shows_the_children(ino, parent, prev, i);
        if 0 <= i < prev.len() {
            assert(children.take(i) =~= prev.take(i));
        } else if i == prev.len() {
            assert(children.take(i) =~= prev);
        }
    }
}

} // verus!
