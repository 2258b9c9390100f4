//! Damage bookkeeping for rotated windows in physics mode: every window
//! remembers the bounding rectangles of its last frames, so that old
//! silhouettes are cleared on every back buffer.

use vstd::prelude::*;
use std::collections::VecDeque;
use crate::geometry::Rect;

verus! {

/// How many past bounding rectangles a window keeps (the DRM damage bag
/// holds 4 buffers).
pub const PHYSICS_DAMAGE_HISTORY: usize = 5;

/// `hist` with `geo` appended, keeping only the newest
/// `PHYSICS_DAMAGE_HISTORY` entries.
pub open spec fn pushed_history(hist: Seq<Rect>, geo: Rect) -> Seq<Rect> {
    let all = hist.push(geo);
    if all.len() > PHYSICS_DAMAGE_HISTORY {
        all.skip(all.len() - PHYSICS_DAMAGE_HISTORY)
    } else {
        all
    }
}

/// Record this frame's bounding rectangle of a window.
pub fn push_damage(hist: &mut VecDeque<Rect>, geo: Rect)
    ensures
        final(hist)@ == pushed_history(old(hist)@, geo),
{
    let ghost all = old(hist)@.push(geo);
    hist.push_back(geo);
    while hist.len() > PHYSICS_DAMAGE_HISTORY
        invariant
            hist@.len() <= all.len(),
            hist@.len() >= PHYSICS_DAMAGE_HISTORY || hist@.len() == all.len(),
            hist@ == all.skip(all.len() - hist@.len()),
        decreases hist@.len(),
    {
        hist.pop_front();
        assert(hist@ =~= all.skip(all.len() - hist@.len()));
    }
    assert(all.skip(0) =~= all);
}

/// The history never holds more than `PHYSICS_DAMAGE_HISTORY` rectangles
/// once it is within bounds, and its newest entry is the rectangle just
/// recorded.
pub proof fn lemma_history_bounded(hist: Seq<Rect>, geo: Rect)
    ensures
        pushed_history(hist, geo).len() <= PHYSICS_DAMAGE_HISTORY || pushed_history(hist, geo).len()
            == hist.len() + 1,
        hist.len() <= PHYSICS_DAMAGE_HISTORY ==> pushed_history(hist, geo).len()
            <= PHYSICS_DAMAGE_HISTORY,
        pushed_history(hist, geo).last() == geo,
{
}

/// The history after recording `geo` is the newest part of the old
/// history followed by `geo`: everything when it fits in
/// `PHYSICS_DAMAGE_HISTORY` entries, the newest `PHYSICS_DAMAGE_HISTORY`
/// otherwise; older entries go first.
pub proof fn lemma_history_keeps_newest(hist: Seq<Rect>, geo: Rect)
    ensures
        ({
            let r = pushed_history(hist, geo);
            let all = hist.push(geo);
            &&& r.len() == if all.len() > PHYSICS_DAMAGE_HISTORY {
                PHYSICS_DAMAGE_HISTORY as int
            } else {
                all.len() as int
            }
            &&& forall|i: int| 0 <= i < r.len() ==> #[trigger] r[i] == all[all.len() - r.len() + i]
        }),
{
}

} // verus!
