//! What a publication is answered, and what is kept for readers.
use vstd::prelude::*;

use crate::engine::volume_state;
use crate::engine::volume_state::{
    BatchView, PublishOutcome, RootView, S4Evidence, StateError, VolumeView,
};

verus! {

/// A publication that succeeds answers with the epoch and the generation of the view that then
/// holds, and says that it changed nothing just where the batch is not the one under way. One whose
/// evidence is for another batch, or whose batch is of another instance, changes nothing at all.
pub proof fn law_publication_is_answered(
    before: VolumeView,
    after: VolumeView,
    b: BatchView,
    ev: S4Evidence,
    directories: Set<Seq<char>>,
    r: Result<PublishOutcome, StateError>,
)
    requires
        volume_state::publish_done(before, after, b, ev, directories, r),
        before.room(1),
    ensures
        ({
            let mine = ev.batch_id == b.batch_id && b.instance == before.current.instance;
            let due = before.current.commit_slot is Some && before.current.commit_slot->0.batch_id
                == b.batch_id;
            &&& !mine ==> r is Err && after == before
            &&& r is Ok <==> mine && !(due && before.fail_next_publish)
            &&& r matches Ok(o) ==> {
                &&& o.epoch == after.current.epoch
                &&& o.duplicate <==> !due
                &&& o.duplicate ==> after.current == before.current && o.generation
                    == before.current.generation
                &&& !o.duplicate ==> o.generation == ev.generation && o.epoch
                    == before.current.epoch + 1
            }
        }),
{
}

proof fn lemma_still_read(roots: Seq<RootView>, counts: Seq<usize>, r: RootView)
    requires
        roots.len() <= counts.len(),
    ensures
        volume_state::still_read(roots, counts).contains(r) <==> exists|i: int|
            0 <= i < roots.len() && #[trigger] roots[i] == r && counts[i] > 1,
        volume_state::still_read(roots, counts).len() <= roots.len(),
    decreases roots.len(),
{
    if roots.len() > 0 {
        let prev = roots.drop_last();
        let last = roots.last();
        let kept = volume_state::still_read(prev, counts);
        lemma_still_read(prev, counts, r);
        assert(roots[roots.len() - 1] == last);
        assert(kept.push(last).contains(r) <==> kept.contains(r) || r == last) by {
            if kept.contains(r) {
                let i = choose|i: int| 0 <= i < kept.len() && kept[i] == r;
                assert(kept.push(last)[i] == r);
            }
            assert(kept.push(last)[kept.len() as int] == last);
        }
        if kept.contains(r) {
            let i = choose|i: int|
                0 <= i < prev.len() && #[trigger] prev[i] == r && counts[i] > 1;
            assert(roots[i] == r);
        }
        if exists|i: int| 0 <= i < roots.len() && #[trigger] roots[i] == r && counts[i] > 1 {
            let i = choose|i: int|
                0 <= i < roots.len() && #[trigger] roots[i] == r && counts[i] > 1;
            if i < prev.len() {
                assert(prev[i] == r);
            }
        }
    }
}

/// Of the views that were replaced just those are kept that someone besides the volume still holds.
pub proof fn law_held_views_are_kept(roots: Seq<RootView>, counts: Seq<usize>, r: RootView)
    requires
        roots.len() == counts.len(),
    ensures
        volume_state::still_read(roots, counts).contains(r) <==> exists|i: int|
            0 <= i < roots.len() && #[trigger] roots[i] == r && counts[i] > 1,
{
    lemma_still_read(roots, counts, r);
}

} // verus!
