//! What the mapper asks of whoever hands out physical frames.

use vstd::prelude::*;
use crate::address::{Frame, FRAME_NUMBER_LIMIT};

verus! {

/// A source of free physical frames.
///
/// `free_frames` is the set of frames that are free, by number. A frame
/// leaves it when it is handed out and comes back when it is returned, so no
/// frame is handed out twice without having been returned in between.
pub trait FrameAllocator {
    /// The allocator's own invariant.
    spec fn wf(&self) -> bool;

    /// Numbers of the frames that are free.
    spec fn free_frames(&self) -> Set<u64>;

    /// The free frames are finitely many, and each can be named in a table slot.
    proof fn lemma_free_frames(&self)
        requires
            self.wf(),
        ensures
            self.free_frames().finite(),
            forall|n: u64| self.free_frames().contains(n) ==> n < FRAME_NUMBER_LIMIT,
    ;

    /// Hands out some free frame, or nothing when none is free.
    fn allocate_frame(&mut self) -> (frame: Option<Frame>)
        requires
            old(self).wf(),
        ensures
            final(self).wf(),
            match frame {
                Some(f) => old(self).free_frames().contains(f.number) && final(self).free_frames()
                    == old(self).free_frames().remove(f.number),
                None => old(self).free_frames() == Set::<u64>::empty()
                    && final(self).free_frames() == old(self).free_frames(),
            },
    ;

    /// Takes a frame back: it is free from now on.
    fn deallocate_frame(&mut self, frame: Frame)
        requires
            old(self).wf(),
            frame.valid(),
        ensures
            final(self).wf(),
            final(self).free_frames() == old(self).free_frames().insert(frame.number),
    ;
}

/// What is free after the frames of `taken` have been handed out, one by one.
pub open spec fn after_allocating(free: Set<u64>, taken: Seq<u64>) -> Set<u64>
    decreases taken.len(),
{
    if taken.len() == 0 {
        free
    } else {
        after_allocating(free, taken.drop_last()).remove(taken.last())
    }
}

/// What is free after the frames of `given` have been returned, one by one.
pub open spec fn after_returning(free: Set<u64>, given: Seq<u64>) -> Set<u64>
    decreases given.len(),
{
    if given.len() == 0 {
        free
    } else {
        after_returning(free, given.drop_last()).insert(given.last())
    }
}

/// After handing out, exactly the frames that were free and not handed out are free.
pub proof fn lemma_after_allocating(free: Set<u64>, taken: Seq<u64>)
    ensures
        forall|n: u64|
            after_allocating(free, taken).contains(n) <==> free.contains(n) && !taken.contains(n),
    decreases taken.len(),
{
    if taken.len() > 0 {
        let front = taken.drop_last();
        lemma_after_allocating(free, front);
        assert forall|n: u64|
            after_allocating(free, taken).contains(n) <==> free.contains(n)
                && !taken.contains(n) by {
            if taken.contains(n) {
                let i = choose|i: int| 0 <= i < taken.len() && taken[i] == n;
                if i < front.len() {
                    assert(front[i] == n);
                }
            }
            if front.contains(n) {
                let i = choose|i: int| 0 <= i < front.len() && front[i] == n;
                assert(taken[i] == n);
            }
            if n == taken.last() {
                assert(taken[taken.len() - 1] == n);
            }
        }
    }
}

/// After returning, exactly the frames that were free or were returned are free.
pub proof fn lemma_after_returning(free: Set<u64>, given: Seq<u64>)
    ensures
        forall|n: u64|
            after_returning(free, given).contains(n) <==> free.contains(n) || given.contains(n),
    decreases given.len(),
{
    if given.len() > 0 {
        let front = given.drop_last();
        lemma_after_returning(free, front);
        assert forall|n: u64|
            after_returning(free, given).contains(n) <==> free.contains(n) || given.contains(n) by {
            if given.contains(n) {
                let i = choose|i: int| 0 <= i < given.len() && given[i] == n;
                if i < front.len() {
                    assert(front[i] == n);
                }
            }
            if front.contains(n) {
                let i = choose|i: int| 0 <= i < front.len() && front[i] == n;
                assert(given[i] == n);
            }
            if n == given.last() {
                assert(given[given.len() - 1] == n);
            }
        }
    }
}

/// Conservation: when frames that were free are handed out and the same
/// frames are returned, in whatever order, the free frames are those that
/// were free before.
pub proof fn lemma_pool_conserved(free: Set<u64>, taken: Seq<u64>, given: Seq<u64>)
    requires
        forall|i: int| 0 <= i < taken.len() ==> free.contains(#[trigger] taken[i]),
        given.to_multiset() == taken.to_multiset(),
    ensures
        after_returning(after_allocating(free, taken), given) == free,
{
    lemma_after_allocating(free, taken);
    lemma_after_returning(after_allocating(free, taken), given);
    given.to_multiset_ensures();
    taken.to_multiset_ensures();
    assert forall|n: u64| given.contains(n) <==> taken.contains(n) by {
        assert(given.contains(n) <==> given.to_multiset().count(n) > 0);
        assert(taken.contains(n) <==> taken.to_multiset().count(n) > 0);
    }
    assert forall|n: u64| taken.contains(n) implies free.contains(n) by {
        let i = choose|i: int| 0 <= i < taken.len() && taken[i] == n;
        assert(free.contains(taken[i]));
    }
    assert(after_returning(after_allocating(free, taken), given) =~= free);
}

} // verus!
