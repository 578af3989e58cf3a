//! The physical memory manager: the pool of free frames, made from the
//! memory map that the boot loader reports.

use vstd::prelude::*;
use crate::address::{
    Frame, PhysicalAddress, VirtualAddress, FRAME_NUMBER_LIMIT, KERNEL_OFFSET, PAGE_SIZE,
};
use crate::allocator::FrameAllocator;

verus! {

/// One area of the boot loader's memory map.
#[derive(Debug, Clone, Copy, PartialEq, Eq)]
pub struct MemoryArea {
    /// Address of the first byte.
    pub base: u64,
    /// Size in bytes.
    pub length: u64,
    /// Whether the area is ordinary memory that the kernel may use.
    pub usable: bool,
}

impl MemoryArea {
    /// Frame `number` lies wholly inside the area, the area is usable, and
    /// the frame can be named in a table slot.
    pub open spec fn holds(&self, number: u64) -> bool {
        &&& self.usable
        &&& self.base <= number * PAGE_SIZE
        &&& (number + 1) * PAGE_SIZE <= self.base + self.length
        &&& number < FRAME_NUMBER_LIMIT
    }
}

/// The frames that a memory map leaves to the pool: those that lie wholly
/// inside a usable area and do not start below `kernel_end`, the end of the
/// memory that the kernel image occupies.
pub open spec fn usable_frames(areas: Seq<MemoryArea>, kernel_end: u64) -> Set<u64> {
    Set::new(
        |n: u64|
            n * PAGE_SIZE >= kernel_end && exists|i: int|
                0 <= i < areas.len() && (#[trigger] areas[i]).holds(n),
    )
}

/// Sets up the pool of free frames at start-up.
///
/// `kernel_end` is the virtual address at which the kernel image ends; the
/// image is loaded at `KERNEL_OFFSET`, so the physical memory below
/// `kernel_end - KERNEL_OFFSET` is kept back.
pub fn init(areas: &Vec<MemoryArea>, kernel_end: VirtualAddress) -> (pool: FramePool)
    requires
        kernel_end >= KERNEL_OFFSET,
    ensures
        pool.wf(),
        pool.free_frames() == usable_frames(areas@, (kernel_end - KERNEL_OFFSET) as u64),
{
    FramePool::new(areas, kernel_end - KERNEL_OFFSET)
}

/// Frames `first` up to, not including, `end`.
struct FrameRange {
    first: u64,
    end: u64,
}

spec fn in_ranges(ranges: Seq<FrameRange>, n: u64) -> bool {
    exists|i: int| 0 <= i < ranges.len() && (#[trigger] ranges[i]).first <= n < ranges[i].end
}

/// The numbers below `limit` are finitely many.
proof fn lemma_numbers_below_finite(limit: u64)
    ensures
        Set::new(|n: u64| n < limit).finite(),
    decreases limit,
{
    let below = Set::new(|n: u64| n < limit);
    if limit == 0 {
        assert(below =~= Set::<u64>::empty());
    } else {
        let less: u64 = (limit - 1) as u64;
        lemma_numbers_below_finite(less);
        assert(below =~= Set::new(|n: u64| n < less).insert(less));
    }
}

/// The pool of free physical frames.
///
/// The frames of the usable areas are handed out in rising order by a cursor
/// that only moves forward; frames that come back are kept in a list and
/// handed out again first.
pub struct FramePool {
    ranges: Vec<FrameRange>,
    cursor: u64,
    returned: Vec<u64>,
}

impl FramePool {
    /// Frame `n` has not been reached by the cursor and lies in a usable area.
    spec fn ahead(&self, n: u64) -> bool {
        n >= self.cursor && in_ranges(self.ranges@, n)
    }

    spec fn inv(&self) -> bool {
        &&& self.returned@.no_duplicates()
        &&& forall|i: int|
            0 <= i < self.ranges@.len() ==> (#[trigger] self.ranges@[i]).end <= FRAME_NUMBER_LIMIT
        &&& forall|i: int|
            0 <= i < self.returned@.len() ==> (#[trigger] self.returned@[i]) < FRAME_NUMBER_LIMIT
                && !self.ahead(self.returned@[i])
    }

    spec fn free(&self) -> Set<u64> {
        Set::new(|n: u64| self.ahead(n) || self.returned@.contains(n))
    }

    /// The pool for a memory map, with everything below `kernel_end` kept back.
    pub fn new(areas: &Vec<MemoryArea>, kernel_end: PhysicalAddress) -> (pool: FramePool)
        ensures
            pool.wf(),
            pool.free_frames() == usable_frames(areas@, kernel_end),
    {
        let mut ranges: Vec<FrameRange> = Vec::new();
        let mut index: usize = 0;
        while index < areas.len()
            invariant
                index <= areas@.len(),
                forall|i: int|
                    0 <= i < ranges@.len() ==> (#[trigger] ranges@[i]).end <= FRAME_NUMBER_LIMIT,
                forall|n: u64|
                    in_ranges(ranges@, n) <==> exists|i: int|
                        0 <= i < index && (#[trigger] areas@[i]).holds(n),
            decreases areas@.len() - index,
        {
            let area = areas[index];
            let ghost before = ranges@;
            if area.usable {
                let first: u64 = if area.base % PAGE_SIZE == 0 {
                    area.base / PAGE_SIZE
                } else {
                    area.base / PAGE_SIZE + 1
                };
                let end: u64 = if area.length > u64::MAX - area.base {
                    FRAME_NUMBER_LIMIT
                } else if (area.base + area.length) / PAGE_SIZE > FRAME_NUMBER_LIMIT {
                    FRAME_NUMBER_LIMIT
                } else {
                    (area.base + area.length) / PAGE_SIZE
                };
                assert forall|n: u64| (first <= n < end) == area.holds(n) by {
                    assert(area.base <= n * PAGE_SIZE <==> first <= n);
                    assert(n < FRAME_NUMBER_LIMIT ==> ((n + 1) * PAGE_SIZE <= area.base
                        + area.length <==> n < end));
                }
                ranges.push(FrameRange { first, end });
                assert forall|n: u64|
                    in_ranges(ranges@, n) <==> exists|i: int|
                        0 <= i < index + 1 && (#[trigger] areas@[i]).holds(n) by {
                    if in_ranges(ranges@, n) {
                        let i = choose|i: int|
                            0 <= i < ranges@.len() && (#[trigger] ranges@[i]).first <= n
                                < ranges@[i].end;
                        if i < before.len() {
                            assert(before[i] == ranges@[i]);
                            assert(in_ranges(before, n));
                        } else {
                            assert(areas@[index as int].holds(n));
                        }
                    }
                    if exists|i: int| 0 <= i < index + 1 && (#[trigger] areas@[i]).holds(n) {
                        let i = choose|i: int|
                            0 <= i < index + 1 && (#[trigger] areas@[i]).holds(n);
                        if i < index {
                            assert(in_ranges(before, n));
                            let j = choose|j: int|
                                0 <= j < before.len() && (#[trigger] before[j]).first <= n
                                    < before[j].end;
                            assert(ranges@[j] == before[j]);
                        } else {
                            assert(ranges@[before.len() as int].first <= n
                                < ranges@[before.len() as int].end);
                        }
                    }
                }
            } else {
                assert forall|n: u64|
                    in_ranges(ranges@, n) <==> exists|i: int|
                        0 <= i < index + 1 && (#[trigger] areas@[i]).holds(n) by {
                    if exists|i: int| 0 <= i < index + 1 && (#[trigger] areas@[i]).holds(n) {
                        let i = choose|i: int|
                            0 <= i < index + 1 && (#[trigger] areas@[i]).holds(n);
                        assert(i < index);
                    }
                }
            }
            index += 1;
        }
        let cursor: u64 = if kernel_end % PAGE_SIZE == 0 {
            kernel_end / PAGE_SIZE
        } else {
            kernel_end / PAGE_SIZE + 1
        };
        let pool = FramePool { ranges, cursor, returned: Vec::new() };
        proof {
            assert forall|n: u64|
                pool.free().contains(n) == usable_frames(areas@, kernel_end).contains(n) by {
                assert((n >= cursor) == (n * PAGE_SIZE >= kernel_end));
            }
            assert(pool.free() =~= usable_frames(areas@, kernel_end));
        }
        pool
    }

    /// Whether the frame with this number is free.
    pub fn is_free(&self, number: u64) -> (free: bool)
        requires
            self.wf(),
        ensures
            free == self.free_frames().contains(number),
    {
        self.was_returned(number) || (number >= self.cursor && self.in_usable_area(number))
    }

    /// Whether at least `count` frames are free.
    pub fn has_free_frames(&self, count: usize) -> (enough: bool)
        requires
            self.wf(),
        ensures
            enough == (self.free_frames().len() >= count),
    {
        let given_back: usize = self.returned.len();
        let ghost back = self.returned@.to_set();
        proof {
            self.lemma_free_frames();
            self.returned@.unique_seq_to_set();
            assert(back.subset_of(self.free()));
            vstd::set_lib::lemma_len_subset(back, self.free());
        }
        if given_back >= count {
            return true;
        }
        let mut found: usize = given_back;
        let mut from: u64 = self.cursor;
        let ghost mut seen: Set<u64> = Set::empty();
        while from < FRAME_NUMBER_LIMIT
            invariant
                self.inv(),
                back == self.returned@.to_set(),
                back.finite(),
                back.len() == given_back,
                self.free().finite(),
                self.cursor <= from,
                seen.finite(),
                found == given_back + seen.len(),
                found < count,
                forall|n: u64| seen.contains(n) <==> self.ahead(n) && n < from,
            decreases FRAME_NUMBER_LIMIT - from,
        {
            match self.next_ahead(from) {
                Some(number) => {
                    proof {
                        let grown = seen.insert(number);
                        assert forall|n: u64|
                            grown.contains(n) <==> self.ahead(n) && n < number + 1 by {}
                        assert(grown.disjoint(back)) by {
                            assert forall|n: u64| grown.contains(n) implies !back.contains(n) by {
                                if back.contains(n) {
                                    let i = choose|i: int|
                                        0 <= i < self.returned@.len() && self.returned@[i] == n;
                                    assert(!self.ahead(self.returned@[i]));
                                }
                            }
                        }
                        vstd::set_lib::lemma_set_disjoint_lens(grown, back);
                        assert((grown + back).subset_of(self.free()));
                        vstd::set_lib::lemma_len_subset(grown + back, self.free());
                        seen = grown;
                    }
                    if found + 1 >= count {
                        return true;
                    }
                    found += 1;
                    from = number + 1;
                },
                None => {
                    proof {
                        assert(self.free() =~= seen + back);
                        assert(seen.disjoint(back)) by {
                            assert forall|n: u64| seen.contains(n) implies !back.contains(n) by {
                                if back.contains(n) {
                                    let i = choose|i: int|
                                        0 <= i < self.returned@.len() && self.returned@[i] == n;
                                    assert(!self.ahead(self.returned@[i]));
                                }
                            }
                        }
                        vstd::set_lib::lemma_set_disjoint_lens(seen, back);
                    }
                    return false;
                },
            }
        }
        proof {
            assert(self.free() =~= seen + back);
            assert(seen.disjoint(back)) by {
                assert forall|n: u64| seen.contains(n) implies !back.contains(n) by {
                    if back.contains(n) {
                        let i = choose|i: int|
                            0 <= i < self.returned@.len() && self.returned@[i] == n;
                        assert(!self.ahead(self.returned@[i]));
                    }
                }
            }
            vstd::set_lib::lemma_set_disjoint_lens(seen, back);
        }
        false
    }

    /// The lowest frame at or above `from` that lies in a usable area.
    fn next_ahead(&self, from: u64) -> (found: Option<u64>)
        requires
            self.inv(),
        ensures
            match found {
                Some(n) => n >= from && in_ranges(self.ranges@, n) && forall|m: u64|
                    from <= m < n ==> !in_ranges(self.ranges@, m),
                None => forall|m: u64| from <= m ==> !in_ranges(self.ranges@, m),
            },
    {
        let mut best: Option<u64> = None;
        let mut index: usize = 0;
        while index < self.ranges.len()
            invariant
                index <= self.ranges@.len(),
                match best {
                    Some(n) => n >= from && in_ranges(self.ranges@, n),
                    None => true,
                },
                forall|i: int|
                    0 <= i < index && (#[trigger] self.ranges@[i]).end > from
                        && self.ranges@[i].first < self.ranges@[i].end ==> best is Some
                        && (best->0 <= self.ranges@[i].first || best->0 <= from),
            decreases self.ranges@.len() - index,
        {
            let range = &self.ranges[index];
            if range.end > from && range.first < range.end {
                let candidate: u64 = if range.first > from {
                    range.first
                } else {
                    from
                };
                assert(self.ranges@[index as int].first <= candidate
                    < self.ranges@[index as int].end);
                match best {
                    Some(n) => {
                        if candidate < n {
                            best = Some(candidate);
                        }
                    },
                    None => {
                        best = Some(candidate);
                    },
                }
            }
            index += 1;
        }
        best
    }

    /// Whether `number` is among the frames that were given back.
    fn was_returned(&self, number: u64) -> (found: bool)
        ensures
            found == self.returned@.contains(number),
    {
        let mut index: usize = 0;
        while index < self.returned.len()
            invariant
                index <= self.returned@.len(),
                forall|i: int| 0 <= i < index ==> self.returned@[i] != number,
            decreases self.returned@.len() - index,
        {
            if self.returned[index] == number {
                return true;
            }
            index += 1;
        }
        false
    }

    /// Whether `number` lies in a usable area.
    fn in_usable_area(&self, number: u64) -> (found: bool)
        ensures
            found == in_ranges(self.ranges@, number),
    {
        let mut index: usize = 0;
        while index < self.ranges.len()
            invariant
                index <= self.ranges@.len(),
                forall|i: int|
                    0 <= i < index ==> !((#[trigger] self.ranges@[i]).first <= number
                        < self.ranges@[i].end),
            decreases self.ranges@.len() - index,
        {
            if self.ranges[index].first <= number && number < self.ranges[index].end {
                return true;
            }
            index += 1;
        }
        false
    }
}

impl FrameAllocator for FramePool {
    closed spec fn wf(&self) -> bool {
        self.inv()
    }

    closed spec fn free_frames(&self) -> Set<u64> {
        self.free()
    }

    proof fn lemma_free_frames(&self) {
        let below = Set::new(|n: u64| n < FRAME_NUMBER_LIMIT);
        lemma_numbers_below_finite(FRAME_NUMBER_LIMIT);
        assert(self.free().subset_of(below));
        vstd::set_lib::lemma_len_subset(self.free(), below);
    }

    fn allocate_frame(&mut self) -> (frame: Option<Frame>) {
        match self.returned.pop() {
            Some(number) => {
                proof {
                    let before = old(self).returned@;
                    assert(before[before.len() - 1] == number);
                    assert(self.returned@ =~= before.drop_last());
                    assert forall|n: u64|
                        self.returned@.contains(n) <==> before.contains(n) && n != number by {
                        if self.returned@.contains(n) {
                            let i = choose|i: int|
                                0 <= i < self.returned@.len() && self.returned@[i] == n;
                            assert(before[i] == n);
                        }
                        if before.contains(n) && n != number {
                            let i = choose|i: int| 0 <= i < before.len() && before[i] == n;
                            assert(self.returned@[i] == n);
                        }
                    }
                    assert(self.free() =~= old(self).free().remove(number));
                }
                Some(Frame { number })
            },
            None => {
                match self.next_ahead(self.cursor) {
                    Some(number) => {
                        self.cursor = number + 1;
                        proof {
                            assert(self.free() =~= old(self).free().remove(number));
                        }
                        Some(Frame { number })
                    },
                    None => {
                        proof {
                            assert(self.free() =~= Set::<u64>::empty());
                        }
                        None
                    },
                }
            },
        }
    }

    fn deallocate_frame(&mut self, frame: Frame) {
        let number: u64 = frame.number;
        if self.was_returned(number) {
            proof {
                assert(self.free() =~= old(self).free().insert(number));
            }
        } else if number >= self.cursor && self.in_usable_area(number) {
            proof {
                assert(self.free() =~= old(self).free().insert(number));
            }
        } else {
            self.returned.push(number);
            proof {
                let before = old(self).returned@;
                assert(self.returned@ =~= before.push(number));
                assert forall|n: u64|
                    self.returned@.contains(n) <==> before.contains(n) || n == number by {
                    if before.contains(n) {
                        let i = choose|i: int| 0 <= i < before.len() && before[i] == n;
                        assert(self.returned@[i] == n);
                    }
                    if n == number {
                        assert(self.returned@[before.len() as int] == n);
                    }
                }
                assert(self.free() =~= old(self).free().insert(number));
            }
        }
    }
}

} // verus!
