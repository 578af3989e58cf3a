//! Physical frames and virtual pages, and the fixed constants of the layout.

use vstd::prelude::*;

verus! {

pub type PhysicalAddress = u64;

pub type VirtualAddress = u64;

/// Span of virtual addresses covered by one slot of the root table.
pub const PML4_SIZE: u64 = 0x0000_0080_0000_0000;

/// Offset of recursive paging: the span of the last root slot.
pub const RECURSIVE_PAGE_OFFSET: u64 = 0xffff_ff80_0000_0000;

/// Offset of the kernel: the span of the root slot below the recursive one.
pub const KERNEL_OFFSET: u64 = 0xffff_ff00_0000_0000;

pub const VGA_BUFFER: u64 = 0xb8000;

pub const PAGE_SIZE: u64 = 0x1000;

/// Slots per table, at every level.
pub const ENTRY_COUNT: usize = 512;

/// First address above the low canonical half.
pub const LOW_HALF_END: u64 = 0x0000_8000_0000_0000;

/// First address of the high canonical half.
pub const HIGH_HALF_START: u64 = 0xffff_8000_0000_0000;

/// Largest number a page or a frame of a 64-bit address can have.
pub const MAX_PAGE_NUMBER: u64 = 0x000f_ffff_ffff_ffff;

/// Physical addresses have 52 bits, so frame numbers have 40.
pub const FRAME_NUMBER_LIMIT: u64 = 0x0000_0100_0000_0000;

/// A virtual address is canonical when it lies in the low or the high half.
pub open spec fn is_canonical(address: u64) -> bool {
    address < LOW_HALF_END || address >= HIGH_HALF_START
}

/// Slot of the root table that a page number selects.
pub open spec fn p4_index_of(number: u64) -> usize {
    ((number as int / 0x800_0000) % 512) as usize
}

/// Slot of the third-level table that a page number selects.
pub open spec fn p3_index_of(number: u64) -> usize {
    ((number as int / 0x4_0000) % 512) as usize
}

/// Slot of the second-level table that a page number selects.
pub open spec fn p2_index_of(number: u64) -> usize {
    ((number as int / 0x200) % 512) as usize
}

/// Slot of the leaf table that a page number selects.
pub open spec fn p1_index_of(number: u64) -> usize {
    (number as int % 512) as usize
}

/// One physical page, named by its index: physical address / page size.
#[derive(Debug, PartialEq, Eq, PartialOrd, Ord)]
pub struct Frame {
    pub number: u64,
}

impl Frame {
    /// The frame's address fits the 52 bits that a table entry can hold.
    pub open spec fn valid(&self) -> bool {
        self.number < FRAME_NUMBER_LIMIT
    }

    /// The frame that holds the byte at `address`.
    pub open spec fn containing(address: u64) -> Frame {
        Frame { number: address / PAGE_SIZE }
    }

    /// Address of the frame's first byte.
    pub open spec fn start(&self) -> int {
        self.number * PAGE_SIZE
    }

    /// The frame that holds an address starts at or below the address, and
    /// less than a page below it.
    pub proof fn lemma_contains_address(address: u64)
        ensures
            Frame::containing(address).start() <= address < Frame::containing(address).start()
                + PAGE_SIZE,
    {
    }

    /// The frame that holds the byte at `address`.
    pub fn containing_address(address: PhysicalAddress) -> (frame: Frame)
        ensures
            frame == Frame::containing(address),
            frame.start() <= address < frame.start() + PAGE_SIZE,
    {
        Frame { number: address / PAGE_SIZE }
    }

    /// Address of the frame's first byte.
    pub fn start_address(&self) -> (address: PhysicalAddress)
        requires
            self.number <= MAX_PAGE_NUMBER,
        ensures
            address == self.start(),
    {
        self.number * PAGE_SIZE
    }

    /// A second token for the same frame.
    pub fn clone(&self) -> (frame: Frame)
        ensures
            frame == *self,
    {
        Frame { number: self.number }
    }

    /// The frames from `start` to `end`, both included.
    pub fn range_inclusive(start: Frame, end: Frame) -> (iter: FrameIter)
        requires
            end.number < u64::MAX,
        ensures
            iter.remaining() == numbers_between(start.number, end.number),
    {
        FrameIter { start: start, end: end }
    }
}

/// The numbers from `start` to `end`, both included; empty when `start > end`.
pub open spec fn numbers_between(start: u64, end: u64) -> Seq<u64> {
    if start <= end {
        Seq::new((end - start + 1) as nat, |i: int| (start + i) as u64)
    } else {
        Seq::empty()
    }
}

/// Walks the frames of an inclusive range, lowest first.
pub struct FrameIter {
    start: Frame,
    end: Frame,
}

impl FrameIter {
    #[verifier::type_invariant]
    spec fn end_can_be_passed(&self) -> bool {
        self.end.number < u64::MAX
    }

    /// Numbers of the frames still to come, in order.
    pub closed spec fn remaining(&self) -> Seq<u64> {
        numbers_between(self.start.number, self.end.number)
    }

    /// The next frame of the range, or nothing when the range is used up.
    pub fn next(&mut self) -> (item: Option<Frame>)
        ensures
            match item {
                Some(frame) => old(self).remaining().len() > 0
                    && frame.number == old(self).remaining()[0]
                    && final(self).remaining() == old(self).remaining().skip(1),
                None => old(self).remaining().len() == 0
                    && final(self).remaining() == old(self).remaining(),
            },
    {
        proof {
            use_type_invariant(&*self);
        }
        if self.start.number <= self.end.number {
            let frame = self.start.clone();
            self.start.number += 1;
            assert(final(self).remaining() =~= old(self).remaining().skip(1));
            Some(frame)
        } else {
            None
        }
    }
}

/// One virtual page, named by its index: virtual address / page size.
#[derive(Debug, Clone, Copy, PartialEq, Eq, PartialOrd, Ord)]
pub struct Page {
    number: u64,
}

impl Page {
    #[verifier::type_invariant]
    spec fn number_fits(&self) -> bool {
        self.number <= MAX_PAGE_NUMBER
    }

    /// The page's index.
    pub closed spec fn number(&self) -> u64 {
        self.number
    }

    /// The page lies in one of the two canonical halves.
    pub open spec fn canonical(&self) -> bool {
        self.number() < LOW_HALF_END / PAGE_SIZE || (HIGH_HALF_START / PAGE_SIZE <= self.number()
            <= MAX_PAGE_NUMBER)
    }

    /// The page that holds the byte at `address`, which must be canonical.
    pub fn containing_address(address: VirtualAddress) -> (page: Page)
        requires
            is_canonical(address),
        ensures
            page.number() == address / PAGE_SIZE,
            page.number() * PAGE_SIZE <= address < page.number() * PAGE_SIZE + PAGE_SIZE,
            page.canonical(),
    {
        Page { number: address / PAGE_SIZE }
    }

    /// Address of the page's first byte.
    pub fn start_address(&self) -> (address: VirtualAddress)
        ensures
            address == self.number() * PAGE_SIZE,
            address % PAGE_SIZE == 0,
            self.canonical() ==> is_canonical(address),
    {
        proof {
            use_type_invariant(self);
        }
        self.number * PAGE_SIZE
    }

    /// The pages from `start` to `end`, both included, by index: where the
    /// two lie in different halves, the indices between the halves are
    /// walked, too.
    pub fn range_inclusive(start: Page, end: Page) -> (iter: PageIter)
        ensures
            iter.remaining() == numbers_between(start.number(), end.number()),
    {
        proof {
            use_type_invariant(&end);
        }
        PageIter { start: start.number, end: end.number }
    }

    /// The slot of the root table that the page selects.
    pub fn p4_index(&self) -> (index: usize)
        ensures
            index == p4_index_of(self.number()),
            index < ENTRY_COUNT,
    {
        let n: u64 = self.number;
        assert((n >> 27) & 0o777 == (n / 0x800_0000) % 512) by (bit_vector);
        ((self.number >> 27) & 0o777) as usize
    }

    /// The slot of the third-level table that the page selects.
    pub fn p3_index(&self) -> (index: usize)
        ensures
            index == p3_index_of(self.number()),
            index < ENTRY_COUNT,
    {
        let n: u64 = self.number;
        assert((n >> 18) & 0o777 == (n / 0x4_0000) % 512) by (bit_vector);
        ((self.number >> 18) & 0o777) as usize
    }

    /// The slot of the second-level table that the page selects.
    pub fn p2_index(&self) -> (index: usize)
        ensures
            index == p2_index_of(self.number()),
            index < ENTRY_COUNT,
    {
        let n: u64 = self.number;
        assert((n >> 9) & 0o777 == (n / 0x200) % 512) by (bit_vector);
        ((self.number >> 9) & 0o777) as usize
    }

    /// The slot of the leaf table that the page selects.
    pub fn p1_index(&self) -> (index: usize)
        ensures
            index == p1_index_of(self.number()),
            index < ENTRY_COUNT,
    {
        let n: u64 = self.number;
        assert((n >> 0) & 0o777 == n % 512) by (bit_vector);
        ((self.number >> 0) & 0o777) as usize
    }
}

/// Walks the pages of an inclusive range, lowest first.
pub struct PageIter {
    start: u64,
    end: u64,
}

impl PageIter {
    #[verifier::type_invariant]
    spec fn end_fits(&self) -> bool {
        self.end <= MAX_PAGE_NUMBER
    }

    /// Indices of the pages still to come, in order.
    pub closed spec fn remaining(&self) -> Seq<u64> {
        numbers_between(self.start, self.end)
    }

    /// The next page of the range, or nothing when the range is used up.
    pub fn next(&mut self) -> (item: Option<Page>)
        ensures
            match item {
                Some(page) => old(self).remaining().len() > 0
                    && page.number() == old(self).remaining()[0]
                    && final(self).remaining() == old(self).remaining().skip(1),
                None => old(self).remaining().len() == 0
                    && final(self).remaining() == old(self).remaining(),
            },
    {
        proof {
            use_type_invariant(&*self);
        }
        if self.start <= self.end {
            let page = Page { number: self.start };
            self.start += 1;
            assert(final(self).remaining() =~= old(self).remaining().skip(1));
            Some(page)
        } else {
            None
        }
    }
}

} // verus!
