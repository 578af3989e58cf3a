//! The mapper: translation, mapping and unmapping of pages in one hierarchy
//! of page tables.

use vstd::prelude::*;
use crate::address::{
    is_canonical, p1_index_of, p2_index_of, p3_index_of, p4_index_of, Frame, Page,
    PhysicalAddress, VirtualAddress, ENTRY_COUNT, FRAME_NUMBER_LIMIT, LOW_HALF_END, PAGE_SIZE,
};
use crate::allocator::FrameAllocator;
use crate::pmm::FramePool;
use crate::entry::{
    bits_frame_number, bits_huge, bits_present, lemma_pack_unpack, pack, Entry, EntryFlags,
    ALL_FLAGS, PRESENT, WRITABLE,
};
use crate::table::{next_table_of, unused_by, Level, TableHandle, TableMemory};

verus! {

/// The slot of the root table that names the root table itself.
pub const RECURSIVE_INDEX: usize = 511;

/// Frames covered by one slot of a second-level table: a 2 MiB page.
pub const FRAMES_PER_P2_ENTRY: u64 = 512;

/// Frames covered by one slot of a third-level table: a 1 GiB page.
pub const FRAMES_PER_P3_ENTRY: u64 = 0x4_0000;

/// The virtual address at which the root table is seen through the
/// recursive slot: all four indices name that slot.
pub const P4_TABLE_ADDRESS: u64 = 0xffff_ffff_ffff_f000;

/// See `next_table_address`.
pub open spec fn next_table_address_of(table_address: u64, index: usize) -> u64 {
    (table_address << 9) | ((index as u64) << 12)
}

/// The virtual address at which the table below is seen, through slot
/// `index` of the table that is seen at `table_address`: each index moves
/// up by one level, and `index` becomes the last.
pub fn next_table_address(table_address: VirtualAddress, index: usize) -> (address:
    VirtualAddress)
    requires
        index < ENTRY_COUNT,
    ensures
        address == next_table_address_of(table_address, index),
{
    let low: u64 = index as u64;
    assert(low << 12 == low * 0x1000 && low * 0x1000 < 0x20_0000) by (bit_vector)
        requires
            low < 512,
    ;
    (table_address << 9) | (low << 12)
}

/// The address at which the third-level table on the way to page `n` is seen.
pub open spec fn p3_table_address(n: u64) -> u64 {
    next_table_address_of(P4_TABLE_ADDRESS, p4_index_of(n))
}

/// The address at which the second-level table on the way to page `n` is seen.
pub open spec fn p2_table_address(n: u64) -> u64 {
    next_table_address_of(p3_table_address(n), p3_index_of(n))
}

/// The address at which the leaf table on the way to page `n` is seen.
pub open spec fn p1_table_address(n: u64) -> u64 {
    next_table_address_of(p2_table_address(n), p2_index_of(n))
}

/// Why a page could not be mapped.
#[derive(Debug, Clone, Copy, PartialEq, Eq)]
pub enum MapError {
    /// The page is in use already, or lies in a huge page.
    InUse { number: u64 },
    /// The allocator has too few frames for the tables on the way to the page.
    OutOfFrames { number: u64 },
    /// The frame that the page is to be mapped to is free in the allocator,
    /// which could hand it out while the page is mapped.
    FrameFree { number: u64 },
}

/// One hierarchy of page tables: the frame of its root table, and the memory
/// in which its tables lie.
pub struct Mapper {
    p4: u64,
    memory: TableMemory,
}

impl Mapper {
    /// Number of the frame that holds the root table.
    pub closed spec fn root(&self) -> u64 {
        self.p4
    }

    /// The memory in which the tables lie.
    pub closed spec fn memory(&self) -> TableMemory {
        self.memory
    }

    /// The slot at `index` of the table in `table`, as the hardware reads it.
    pub open spec fn slot(&self, table: u64, index: int) -> u64 {
        self.memory().entry_at(table, index)
    }

    /// The tables are sound, and the recursive slot of the root table names
    /// the root table.
    pub open spec fn wf(&self) -> bool {
        &&& self.memory().wf()
        &&& self.root() < FRAME_NUMBER_LIMIT
        &&& next_table_of(&self.memory(), self.root(), RECURSIVE_INDEX as int) == Some(self.root())
    }

    /// The third-level table on the way to page `n`, if there is one.
    pub open spec fn p3_of(&self, n: u64) -> Option<u64> {
        next_table_of(&self.memory(), self.root(), p4_index_of(n) as int)
    }

    /// The second-level table on the way to page `n`, if there is one.
    pub open spec fn p2_of(&self, n: u64) -> Option<u64> {
        match self.p3_of(n) {
            Some(p3) => next_table_of(&self.memory(), p3, p3_index_of(n) as int),
            None => None,
        }
    }

    /// The leaf table on the way to page `n`, if there is one.
    pub open spec fn p1_of(&self, n: u64) -> Option<u64> {
        match self.p2_of(n) {
            Some(p2) => next_table_of(&self.memory(), p2, p2_index_of(n) as int),
            None => None,
        }
    }

    /// The frame that page `n` translates to.
    ///
    /// A complete chain of tables ends in the leaf slot, which gives the
    /// frame if it is present. Where the chain stops at a present slot with
    /// the huge-page flag, that slot maps a 1 GiB page (in the third-level
    /// table) or a 2 MiB page (in the second-level table), and the frame is
    /// counted from the huge page's first frame.
    pub open spec fn translation(&self, n: u64) -> Option<u64> {
        match self.p3_of(n) {
            None => None,
            Some(p3) => match self.p2_of(n) {
                None => {
                    let bits = self.slot(p3, p3_index_of(n) as int);
                    if bits_present(bits) && bits_huge(bits) {
                        Some(
                            (bits_frame_number(bits) + p2_index_of(n) * FRAMES_PER_P2_ENTRY
                                + p1_index_of(n)) as u64,
                        )
                    } else {
                        None
                    }
                },
                Some(p2) => match self.p1_of(n) {
                    None => {
                        let bits = self.slot(p2, p2_index_of(n) as int);
                        if bits_present(bits) && bits_huge(bits) {
                            Some((bits_frame_number(bits) + p1_index_of(n)) as u64)
                        } else {
                            None
                        }
                    },
                    Some(p1) => {
                        let bits = self.slot(p1, p1_index_of(n) as int);
                        if bits_present(bits) {
                            Some(bits_frame_number(bits))
                        } else {
                            None
                        }
                    },
                },
            },
        }
    }

    /// The way to page `n` ends in a huge page whose first frame is not
    /// aligned to the huge page's size.
    pub open spec fn misaligned_huge(&self, n: u64) -> bool {
        match self.p3_of(n) {
            None => false,
            Some(p3) => match self.p2_of(n) {
                None => {
                    let bits = self.slot(p3, p3_index_of(n) as int);
                    bits_present(bits) && bits_huge(bits) && bits_frame_number(bits)
                        % FRAMES_PER_P3_ENTRY != 0
                },
                Some(p2) => match self.p1_of(n) {
                    None => {
                        let bits = self.slot(p2, p2_index_of(n) as int);
                        bits_present(bits) && bits_huge(bits) && bits_frame_number(bits)
                            % FRAMES_PER_P2_ENTRY != 0
                    },
                    Some(p1) => false,
                },
            },
        }
    }

    /// Page `n` cannot be mapped as things are: a huge page lies on the way
    /// to its leaf slot, or the leaf slot is in use.
    pub open spec fn map_blocked(&self, n: u64) -> bool {
        bits_huge(self.slot(self.root(), p4_index_of(n) as int)) || match self.p3_of(n) {
            None => false,
            Some(p3) => bits_huge(self.slot(p3, p3_index_of(n) as int)) || match self.p2_of(n) {
                None => false,
                Some(p2) => bits_huge(self.slot(p2, p2_index_of(n) as int)) || match self.p1_of(
                    n,
                ) {
                    None => false,
                    Some(p1) => self.slot(p1, p1_index_of(n) as int) != 0,
                },
            },
        }
    }

    /// How many tables are missing on the way to the leaf slot of page `n`.
    pub open spec fn tables_missing(&self, n: u64) -> nat {
        if self.p3_of(n) is None {
            3
        } else if self.p2_of(n) is None {
            2
        } else if self.p1_of(n) is None {
            1
        } else {
            0
        }
    }

    /// Slot `index` of the table in `table` lies on the way to page `n`.
    pub open spec fn on_path(&self, n: u64, table: u64, index: int) -> bool {
        ||| table == self.root() && index == p4_index_of(n)
        ||| self.p3_of(n) == Some(table) && index == p3_index_of(n)
        ||| self.p2_of(n) == Some(table) && index == p2_index_of(n)
        ||| self.p1_of(n) == Some(table) && index == p1_index_of(n)
    }

    /// The frame with this number is not in use by the hierarchy: it is not
    /// the root table, no slot in it is in use, and no present slot refers to it.
    pub open spec fn frame_unused(&self, number: u64) -> bool {
        &&& number != self.root()
        &&& self.memory().blank(number)
        &&& forall|t: u64, i: int|
            0 <= i < ENTRY_COUNT && bits_present(#[trigger] self.memory().entry_at(t, i))
                ==> bits_frame_number(self.memory().entry_at(t, i)) != number
    }

    /// No frame of `free` is in use by the hierarchy: none is the root
    /// table, holds a slot that is in use, or is referred to by a present slot.
    pub open spec fn frames_unused(&self, free: Set<u64>) -> bool {
        unused_by(&self.memory(), free) && !free.contains(self.root())
    }

    /// Every slot that is in use in `self` is the same in `after`.
    pub open spec fn kept_by(&self, after: &Mapper) -> bool {
        forall|t: u64, i: int|
            0 <= i < ENTRY_COUNT && #[trigger] self.memory().entry_at(t, i) != 0
                ==> after.memory().entry_at(t, i) == self.memory().entry_at(t, i)
    }

    /// The chain of tables to the leaf slot of page `n` is complete, and the
    /// leaf slot holds `bits`.
    pub open spec fn leaf_is(&self, n: u64, bits: u64) -> bool {
        self.p1_of(n) is Some && self.slot(self.p1_of(n)->0, p1_index_of(n) as int) == bits
    }

    /// The leaf slot of page `n` is none of the slots that lead to it.
    pub open spec fn leaf_apart(&self, n: u64) -> bool {
        match self.p1_of(n) {
            Some(p1) => {
                &&& !(p1 == self.root() && p1_index_of(n) == p4_index_of(n))
                &&& !(self.p3_of(n) == Some(p1) && p1_index_of(n) == p3_index_of(n))
                &&& !(self.p2_of(n) == Some(p1) && p1_index_of(n) == p2_index_of(n))
            },
            None => true,
        }
    }

    /// Each frame from `first` to `last` is mapped at its own address, with
    /// the flag bits `flags` and the presence flag.
    pub open spec fn identity_mapped(&self, first: u64, last: u64, flags: u64) -> bool {
        forall|n: u64| first <= n <= last ==> #[trigger] self.leaf_is(n, pack(n, flags | PRESENT))
    }

    /// Mapping the frames from `first` to `last` at their own addresses has
    /// stopped with `error`: the frames below the one that the error names
    /// are mapped, and that one cannot be, for the reason that the error
    /// gives, with the hierarchy as it is and the frames of `free`.
    pub open spec fn stopped_at(
        &self,
        first: u64,
        last: u64,
        flags: u64,
        free: Set<u64>,
        error: MapError,
    ) -> bool {
        match error {
            MapError::InUse { number } => {
                &&& first <= number <= last
                &&& number > first ==> self.identity_mapped(first, (number - 1) as u64, flags)
                &&& !free.contains(number)
                &&& self.map_blocked(number)
            },
            MapError::OutOfFrames { number } => {
                &&& first <= number <= last
                &&& number > first ==> self.identity_mapped(first, (number - 1) as u64, flags)
                &&& !free.contains(number)
                &&& !self.map_blocked(number)
                &&& free.len() < self.tables_missing(number)
            },
            MapError::FrameFree { number } => {
                &&& first <= number <= last
                &&& number > first ==> self.identity_mapped(first, (number - 1) as u64, flags)
                &&& free.contains(number)
            },
        }
    }

    /// `self` is what mapping page `n` to frame `f` with the flag bits
    /// `flags` makes of `before`: the leaf slot of `n` holds `f` with `flags`
    /// and the presence flag, no slot that was in use has changed, and every
    /// slot that has changed lies on the way to `n`.
    pub open spec fn maps_onto(&self, before: &Mapper, n: u64, f: u64, flags: u64) -> bool {
        &&& self.root() == before.root()
        &&& self.leaf_is(n, pack(f, flags | PRESENT))
        &&& self.leaf_apart(n)
        &&& before.kept_by(self)
        &&& forall|t: u64, i: int|
            0 <= i < ENTRY_COUNT && #[trigger] self.memory().entry_at(t, i)
                != before.memory().entry_at(t, i) ==> self.on_path(n, t, i) && (self.p1_of(n)
                == Some(t) && i == p1_index_of(n) || self.memory().entry_at(t, i) == pack(
                bits_frame_number(self.memory().entry_at(t, i)),
                PRESENT | WRITABLE,
            ))
    }

    /// Every table that was created on the way to page `n` lies in a frame
    /// that was free and is free no longer.
    pub open spec fn tables_taken(
        &self,
        before: &Mapper,
        n: u64,
        free_before: Set<u64>,
        free_after: Set<u64>,
    ) -> bool {
        forall|t: u64, i: int|
            0 <= i < ENTRY_COUNT && #[trigger] self.memory().entry_at(t, i)
                != before.memory().entry_at(t, i) && !(self.p1_of(n) == Some(t) && i
                == p1_index_of(n)) ==> free_before.contains(
                bits_frame_number(self.memory().entry_at(t, i)),
            ) && !free_after.contains(bits_frame_number(self.memory().entry_at(t, i)))
    }

    /// Page `n` can be unmapped: the chain of tables to its leaf slot is
    /// complete, the leaf slot is present, and it is not the recursive slot.
    pub open spec fn unmappable(&self, n: u64) -> bool {
        match self.p1_of(n) {
            Some(p1) => bits_present(self.slot(p1, p1_index_of(n) as int)) && !(p1 == self.root()
                && p1_index_of(n) == RECURSIVE_INDEX),
            None => false,
        }
    }

    /// `self` is what unmapping page `n` makes of `before`: the leaf slot of
    /// `n` is unused, and every other slot is as it was.
    pub open spec fn unmaps_from(&self, before: &Mapper, n: u64) -> bool {
        &&& self.root() == before.root()
        &&& before.p1_of(n) is Some
        &&& self.slot(before.p1_of(n)->0, p1_index_of(n) as int) == 0
        &&& self.memory().same_but(
            &before.memory(),
            before.p1_of(n)->0,
            p1_index_of(n) as int,
        )
    }

    /// The physical address that the virtual address `v` translates to.
    pub open spec fn translated_address(&self, v: u64) -> Option<u64> {
        match self.translation((v / PAGE_SIZE) as u64) {
            Some(number) => Some((number * PAGE_SIZE + v % PAGE_SIZE) as u64),
            None => None,
        }
    }

    /// A hierarchy that maps nothing: its root table lies in `root` and holds
    /// the recursive slot alone.
    pub fn new(root: Frame) -> (mapper: Mapper)
        requires
            root.valid(),
        ensures
            mapper.wf(),
            mapper.root() == root.number,
            mapper.slot(root.number, RECURSIVE_INDEX as int) == pack(
                root.number,
                PRESENT | WRITABLE,
            ),
            forall|t: u64, i: int|
                0 <= i < ENTRY_COUNT && !(t == root.number && i == RECURSIVE_INDEX)
                    ==> #[trigger] mapper.memory().entry_at(t, i) == 0,
    {
        let number: u64 = root.number;
        let mut memory = TableMemory::new();
        let mut entry = Entry::unused();
        let flags = EntryFlags::from_bits_truncate(PRESENT | WRITABLE);
        proof {
            assert((0x1u64 | 0x2u64) & !0x8000_0000_0000_01ffu64 == 0) by (bit_vector);
            assert((0x1u64 | 0x2u64) & 0x1u64 != 0) by (bit_vector);
            assert((0x1u64 | 0x2u64) & 0x80u64 == 0) by (bit_vector);
            lemma_pack_unpack(number, PRESENT | WRITABLE);
        }
        entry.set(root, flags);
        let ghost empty = memory;
        memory.write(number, RECURSIVE_INDEX, entry);
        let mapper = Mapper { p4: number, memory };
        assert forall|t: u64, i: int|
            0 <= i < ENTRY_COUNT && !(t == root.number && i == RECURSIVE_INDEX)
                implies #[trigger] mapper.memory().entry_at(t, i) == 0 by {
            assert(empty.blank(t));
            assert(memory.entry_at(t, i) == empty.entry_at(t, i));
        }
        mapper
    }

    /// A hierarchy that maps nothing, with its root table in a frame taken
    /// from `allocator`; nothing where no frame is free.
    pub fn with_root_from<A: FrameAllocator>(allocator: &mut A) -> (mapper: Option<Mapper>)
        requires
            old(allocator).wf(),
        ensures
            final(allocator).wf(),
            match mapper {
                Some(mapper) => {
                    &&& mapper.wf()
                    &&& old(allocator).free_frames().contains(mapper.root())
                    &&& final(allocator).free_frames() == old(allocator).free_frames().remove(
                        mapper.root(),
                    )
                    &&& mapper.frames_unused(final(allocator).free_frames())
                    &&& forall|t: u64, i: int|
                        0 <= i < ENTRY_COUNT && !(t == mapper.root() && i == RECURSIVE_INDEX)
                            ==> #[trigger] mapper.memory().entry_at(t, i) == 0
                },
                None => old(allocator).free_frames() == Set::<u64>::empty()
                    && final(allocator).free_frames() == old(allocator).free_frames(),
            },
    {
        proof {
            allocator.lemma_free_frames();
        }
        match allocator.allocate_frame() {
            Some(root) => {
                let mapper = Mapper::new(root);
                proof {
                    assert((0x1u64 | 0x2u64) & !0x8000_0000_0000_01ffu64 == 0) by (bit_vector);
                    lemma_pack_unpack(mapper.root(), PRESENT | WRITABLE);
                    lemma_zero_bits();
                }
                Some(mapper)
            },
            None => None,
        }
    }

    /// The root table.
    pub fn p4(&self) -> (table: TableHandle)
        ensures
            table.frame == self.root(),
            table.level == Level::P4,
    {
        TableHandle::root(self.p4)
    }

    /// The memory in which the tables lie, to read them.
    pub fn tables(&self) -> (memory: &TableMemory)
        ensures
            *memory == self.memory(),
    {
        &self.memory
    }

    /// Whether no misaligned huge page lies on the way to `page`, so that
    /// the page can be translated.
    pub fn huge_pages_aligned(&self, page: Page) -> (aligned: bool)
        requires
            self.wf(),
        ensures
            aligned == !self.misaligned_huge(page.number()),
    {
        let p3 = match self.p4().next_table(&self.memory, page.p4_index()) {
            Some(table) => table,
            None => {
                return true;
            },
        };
        match p3.next_table(&self.memory, page.p3_index()) {
            None => {
                let entry = p3.entry(&self.memory, page.p3_index());
                match entry.frame() {
                    Some(start) => !entry.is_huge() || start.number % FRAMES_PER_P3_ENTRY == 0,
                    None => true,
                }
            },
            Some(p2) => match p2.next_table(&self.memory, page.p2_index()) {
                None => {
                    let entry = p2.entry(&self.memory, page.p2_index());
                    match entry.frame() {
                        Some(start) => !entry.is_huge() || start.number % FRAMES_PER_P2_ENTRY
                            == 0,
                        None => true,
                    }
                },
                Some(_) => true,
            },
        }
    }

    /// The frame that `page` is mapped to, if it is mapped.
    pub fn translate_page(&self, page: Page) -> (frame: Option<Frame>)
        requires
            self.wf(),
            !self.misaligned_huge(page.number()),
        ensures
            frame == match self.translation(page.number()) {
                Some(number) => Some(Frame { number }),
                None => None,
            },
    {
        let p3 = match self.p4().next_table(&self.memory, page.p4_index()) {
            Some(table) => table,
            None => {
                return None;
            },
        };
        match p3.next_table(&self.memory, page.p3_index()) {
            None => {
                let entry = p3.entry(&self.memory, page.p3_index());
                match entry.frame() {
                    Some(start) => {
                        if entry.is_huge() {
                            let p2_index: u64 = page.p2_index() as u64;
                            let p1_index: u64 = page.p1_index() as u64;
                            Some(
                                Frame {
                                    number: start.number + p2_index * FRAMES_PER_P2_ENTRY
                                        + p1_index,
                                },
                            )
                        } else {
                            None
                        }
                    },
                    None => None,
                }
            },
            Some(p2) => match p2.next_table(&self.memory, page.p2_index()) {
                None => {
                    let entry = p2.entry(&self.memory, page.p2_index());
                    match entry.frame() {
                        Some(start) => {
                            if entry.is_huge() {
                                let p1_index: u64 = page.p1_index() as u64;
                                Some(Frame { number: start.number + p1_index })
                            } else {
                                None
                            }
                        },
                        None => None,
                    }
                },
                Some(p1) => p1.entry(&self.memory, page.p1_index()).frame(),
            },
        }
    }

    /// The physical address that a virtual address is mapped to, if its page
    /// is mapped: the frame's address plus the offset within the page.
    pub fn translate(&self, virtual_address: VirtualAddress) -> (address: Option<PhysicalAddress>)
        requires
            self.wf(),
            is_canonical(virtual_address),
            !self.misaligned_huge(virtual_address / PAGE_SIZE),
        ensures
            address == self.translated_address(virtual_address),
    {
        let offset: u64 = virtual_address % PAGE_SIZE;
        match self.translate_page(Page::containing_address(virtual_address)) {
            Some(frame) => Some(frame.start_address() + offset),
            None => None,
        }
    }

    /// Maps `page` to `frame` with `flags` and the presence flag, creating
    /// the tables that are missing on the way from frames of `allocator`.
    pub fn map_to<A: FrameAllocator>(
        &mut self,
        page: Page,
        frame: Frame,
        flags: EntryFlags,
        allocator: &mut A,
    )
        requires
            old(self).wf(),
            old(allocator).wf(),
            frame.valid(),
            !old(self).map_blocked(page.number()),
            old(allocator).free_frames().len() >= old(self).tables_missing(page.number()),
            old(self).frames_unused(old(allocator).free_frames()),
        ensures
            final(self).wf(),
            final(allocator).wf(),
            final(self).maps_onto(old(self), page.number(), frame.number, flags@),
            final(self).translation(page.number()) == Some(frame.number),
            final(self).tables_taken(
                old(self),
                page.number(),
                old(allocator).free_frames(),
                final(allocator).free_frames(),
            ),
            final(allocator).free_frames().subset_of(old(allocator).free_frames()),
            final(allocator).free_frames().len() == old(allocator).free_frames().len()
                - old(self).tables_missing(page.number()),
            !final(allocator).free_frames().contains(frame.number) ==> final(self).frames_unused(
                final(allocator).free_frames(),
            ),
            final(self).map_blocked(page.number()),
            final(self).unmappable(page.number()),
    {
        let ghost n = page.number();
        let ghost free0 = allocator.free_frames();
        proof {
            allocator.lemma_free_frames();
            lemma_zero_bits();
        }
        let p4 = self.p4();
        let p3 = p4.next_table_create(&mut self.memory, page.p4_index(), allocator);
        let ghost m1 = self.memory;
        let ghost free1 = allocator.free_frames();
        let p2 = p3.next_table_create(&mut self.memory, page.p3_index(), allocator);
        let ghost m2 = self.memory;
        let ghost free2 = allocator.free_frames();
        let p1 = p2.next_table_create(&mut self.memory, page.p2_index(), allocator);
        let ghost m3 = self.memory;
        let mut entry = p1.entry(&self.memory, page.p1_index());
        let all_flags = flags.union(EntryFlags::from_bits_truncate(PRESENT));
        let all_bits: u64 = all_flags.bits();
        proof {
            let f = flags@;
            assert((f | (0x1u64 & 0x8000_0000_0000_01ffu64)) == f | 0x1u64 && (f | 0x1u64) & 0x1u64
                != 0) by (bit_vector);
            lemma_pack_unpack(frame.number, all_bits);
        }
        entry.set(frame, all_flags);
        self.memory.write(p1.frame, page.p1_index(), entry);
    }

    /// How many tables mapping `page` would have to create, or nothing
    /// where the page cannot be mapped as things are.
    pub fn tables_to_create(&self, page: Page) -> (count: Option<usize>)
        requires
            self.wf(),
        ensures
            count == if self.map_blocked(page.number()) {
                None
            } else {
                Some(self.tables_missing(page.number()) as usize)
            },
    {
        let p4 = self.p4();
        if p4.entry(&self.memory, page.p4_index()).is_huge() {
            return None;
        }
        let p3 = match p4.next_table(&self.memory, page.p4_index()) {
            Some(table) => table,
            None => {
                return Some(3);
            },
        };
        if p3.entry(&self.memory, page.p3_index()).is_huge() {
            return None;
        }
        let p2 = match p3.next_table(&self.memory, page.p3_index()) {
            Some(table) => table,
            None => {
                return Some(2);
            },
        };
        if p2.entry(&self.memory, page.p2_index()).is_huge() {
            return None;
        }
        let p1 = match p2.next_table(&self.memory, page.p2_index()) {
            Some(table) => table,
            None => {
                return Some(1);
            },
        };
        if p1.entry(&self.memory, page.p1_index()).is_unused() {
            Some(0)
        } else {
            None
        }
    }

    /// Maps `page` to a frame taken from `allocator`.
    pub fn map<A: FrameAllocator>(&mut self, page: Page, flags: EntryFlags, allocator: &mut A)
        requires
            old(self).wf(),
            old(allocator).wf(),
            !old(self).map_blocked(page.number()),
            old(allocator).free_frames().len() >= old(self).tables_missing(page.number()) + 1,
            old(self).frames_unused(old(allocator).free_frames()),
        ensures
            final(self).wf(),
            final(allocator).wf(),
            final(self).translation(page.number()) is Some,
            old(allocator).free_frames().contains(final(self).translation(page.number())->0),
            !final(allocator).free_frames().contains(final(self).translation(page.number())->0),
            final(self).maps_onto(
                old(self),
                page.number(),
                final(self).translation(page.number())->0,
                flags@,
            ),
            final(self).tables_taken(
                old(self),
                page.number(),
                old(allocator).free_frames().remove(final(self).translation(page.number())->0),
                final(allocator).free_frames(),
            ),
            final(allocator).free_frames().subset_of(old(allocator).free_frames()),
            final(allocator).free_frames().len() == old(allocator).free_frames().len()
                - old(self).tables_missing(page.number()) - 1,
            final(self).frames_unused(final(allocator).free_frames()),
            final(self).map_blocked(page.number()),
            final(self).unmappable(page.number()),
    {
        proof {
            allocator.lemma_free_frames();
        }
        let frame = match allocator.allocate_frame() {
            Some(frame) => frame,
            None => {
                proof {
                    assert(old(allocator).free_frames().len() == 0);
                }
                vstd::pervasive::unreached()
            },
        };
        self.map_to(page, frame, flags, allocator)
    }

    /// Maps the page whose address is the address of `frame` to that frame.
    pub fn identity_map<A: FrameAllocator>(
        &mut self,
        frame: Frame,
        flags: EntryFlags,
        allocator: &mut A,
    )
        requires
            old(self).wf(),
            old(allocator).wf(),
            frame.number < LOW_HALF_END / PAGE_SIZE,
            !old(self).map_blocked(frame.number),
            old(allocator).free_frames().len() >= old(self).tables_missing(frame.number),
            old(self).frames_unused(old(allocator).free_frames()),
        ensures
            final(self).wf(),
            final(allocator).wf(),
            final(self).maps_onto(old(self), frame.number, frame.number, flags@),
            final(self).translation(frame.number) == Some(frame.number),
            final(self).tables_taken(
                old(self),
                frame.number,
                old(allocator).free_frames(),
                final(allocator).free_frames(),
            ),
            final(allocator).free_frames().subset_of(old(allocator).free_frames()),
            final(allocator).free_frames().len() == old(allocator).free_frames().len()
                - old(self).tables_missing(frame.number),
            !final(allocator).free_frames().contains(frame.number) ==> final(self).frames_unused(
                final(allocator).free_frames(),
            ),
            final(self).map_blocked(frame.number),
            final(self).unmappable(frame.number),
    {
        let page = Page::containing_address(frame.start_address());
        self.map_to(page, frame, flags, allocator)
    }

    /// Maps each frame from `first` to `last` to the page at its own address,
    /// lowest first, and stops at the first that cannot be mapped.
    pub fn identity_map_range(
        &mut self,
        first: Frame,
        last: Frame,
        flags: EntryFlags,
        pool: &mut FramePool,
    ) -> (result: Result<(), MapError>)
        requires
            old(self).wf(),
            old(pool).wf(),
            last.number < LOW_HALF_END / PAGE_SIZE,
            old(self).frames_unused(old(pool).free_frames()),
        ensures
            final(self).wf(),
            final(pool).wf(),
            final(self).root() == old(self).root(),
            old(self).kept_by(final(self)),
            final(pool).free_frames().subset_of(old(pool).free_frames()),
            final(self).frames_unused(final(pool).free_frames()),
            match result {
                Ok(()) => final(self).identity_mapped(first.number, last.number, flags@),
                Err(error) => final(self).stopped_at(
                    first.number,
                    last.number,
                    flags@,
                    final(pool).free_frames(),
                    error,
                ),
            },
    {
        let mut number: u64 = first.number;
        let bits: u64 = flags.bits();
        proof {
            lemma_flags_with_present(bits);
            lemma_zero_bits();
        }
        while number <= last.number
            invariant
                self.wf(),
                pool.wf(),
                bits == flags@,
                (bits | PRESENT) & PRESENT != 0,
                (bits | PRESENT) & !ALL_FLAGS == 0,
                first.number <= number,
                number <= last.number + 1 || number == first.number,
                last.number < LOW_HALF_END / PAGE_SIZE,
                self.root() == old(self).root(),
                old(self).kept_by(self),
                pool.free_frames().subset_of(old(pool).free_frames()),
                self.frames_unused(pool.free_frames()),
                forall|n: u64|
                    first.number <= n < number ==> #[trigger] self.leaf_is(
                        n,
                        pack(n, flags@ | PRESENT),
                    ),
            decreases last.number + 1 - number,
        {
            if pool.is_free(number) {
                return Err(MapError::FrameFree { number });
            }
            let frame = Frame { number };
            let page = Page::containing_address(frame.start_address());
            let missing = match self.tables_to_create(page) {
                Some(count) => count,
                None => {
                    return Err(MapError::InUse { number });
                },
            };
            if !pool.has_free_frames(missing) {
                return Err(MapError::OutOfFrames { number });
            }
            let ghost before = *self;
            self.map_to(page, frame, flags, pool);
            proof {
                assert forall|n: u64| first.number <= n < number + 1 implies #[trigger] self
                    .leaf_is(n, pack(n, flags@ | PRESENT)) by {
                    if n < number {
                        lemma_pack_unpack(n, bits | PRESENT);
                        lemma_zero_bits();
                        lemma_leaf_kept(before, *self, n, pack(n, bits | PRESENT));
                    }
                }
                assert(old(self).kept_by(self));
            }
            number += 1;
        }
        Ok(())
    }

    /// Whether `page` can be unmapped.
    pub fn can_unmap(&self, page: Page) -> (possible: bool)
        requires
            self.wf(),
        ensures
            possible == self.unmappable(page.number()),
    {
        let p3 = match self.p4().next_table(&self.memory, page.p4_index()) {
            Some(table) => table,
            None => {
                return false;
            },
        };
        let p2 = match p3.next_table(&self.memory, page.p3_index()) {
            Some(table) => table,
            None => {
                return false;
            },
        };
        let p1 = match p2.next_table(&self.memory, page.p2_index()) {
            Some(table) => table,
            None => {
                return false;
            },
        };
        let index = page.p1_index();
        !p1.entry(&self.memory, index).is_unused() && !(p1.frame == self.p4 && index
            == RECURSIVE_INDEX)
    }

    /// Unmaps `page`: clears its leaf slot and gives the frame that it was
    /// mapped to back to `allocator`. The tables on the way stay, also where
    /// the last slot of one has been cleared. The frame is returned, too, so
    /// that the caller can drop what the processor has cached for the page.
    pub fn unmap<A: FrameAllocator>(&mut self, page: Page, allocator: &mut A) -> (frame: Frame)
        requires
            old(self).wf(),
            old(allocator).wf(),
            old(self).unmappable(page.number()),
        ensures
            final(self).wf(),
            final(allocator).wf(),
            old(self).translation(page.number()) == Some(frame.number),
            final(self).unmaps_from(old(self), page.number()),
            final(self).translation(page.number()) is None,
            final(allocator).free_frames() == old(allocator).free_frames().insert(frame.number),
            old(self).frames_unused(old(allocator).free_frames())
                && final(self).frame_unused(frame.number)
                ==> final(self).frames_unused(final(allocator).free_frames()),
    {
        proof {
            lemma_zero_bits();
        }
        let p3 = match self.p4().next_table(&self.memory, page.p4_index()) {
            Some(table) => table,
            None => vstd::pervasive::unreached(),
        };
        let p2 = match p3.next_table(&self.memory, page.p3_index()) {
            Some(table) => table,
            None => vstd::pervasive::unreached(),
        };
        let p1 = match p2.next_table(&self.memory, page.p2_index()) {
            Some(table) => table,
            None => vstd::pervasive::unreached(),
        };
        let mut entry = p1.entry(&self.memory, page.p1_index());
        let frame = match entry.frame() {
            Some(frame) => frame,
            None => vstd::pervasive::unreached(),
        };
        entry.set_unused();
        self.memory.write(p1.frame, page.p1_index(), entry);
        allocator.deallocate_frame(frame.clone());
        frame
    }
}

/// A slot of zero is neither present nor huge, and a present slot is not zero.
pub proof fn lemma_zero_bits()
    ensures
        !bits_present(0),
        !bits_huge(0),
        forall|bits: u64| #[trigger] bits_present(bits) ==> bits != 0,
{
    assert(0u64 & 0x1 == 0) by (bit_vector);
    assert(0u64 & 0x80 == 0) by (bit_vector);
}

/// A page whose leaf slot holds a frame with the presence flag translates
/// to that frame, and no huge page lies on the way to it.
pub proof fn lemma_leaf_translates(mapper: Mapper, n: u64, frame: Frame, flags: u64)
    requires
        frame.valid(),
        flags & !ALL_FLAGS == 0,
        flags & PRESENT != 0,
        mapper.leaf_is(n, pack(frame.number, flags)),
    ensures
        mapper.translation(n) == Some(frame.number),
        !mapper.misaligned_huge(n),
        mapper.map_blocked(n),
{
    lemma_pack_unpack(frame.number, flags);
    lemma_zero_bits();
}

/// After a page has been mapped to a frame, an address in the page
/// translates to the frame's address plus the address's offset in the page.
pub proof fn lemma_translate_after_map_to(
    before: Mapper,
    after: Mapper,
    v: u64,
    frame: Frame,
    flags: u64,
)
    requires
        frame.valid(),
        flags & !ALL_FLAGS == 0,
        after.maps_onto(&before, (v / PAGE_SIZE) as u64, frame.number, flags),
    ensures
        after.translation((v / PAGE_SIZE) as u64) == Some(frame.number),
        after.translated_address(v) == Some((frame.start() + v % PAGE_SIZE) as u64),
{
    lemma_flags_with_present(flags);
    lemma_pack_unpack(frame.number, flags | PRESENT);
}

/// A page that has been mapped cannot be mapped again before it is unmapped.
pub proof fn lemma_mapped_page_is_blocked(
    before: Mapper,
    after: Mapper,
    n: u64,
    frame: Frame,
    flags: u64,
)
    requires
        frame.valid(),
        flags & !ALL_FLAGS == 0,
        after.maps_onto(&before, n, frame.number, flags),
    ensures
        after.map_blocked(n),
{
    lemma_flags_with_present(flags);
    lemma_pack_unpack(frame.number, flags | PRESENT);
    lemma_zero_bits();
}

/// Mapping a page and unmapping it again: what the page was mapped to is the
/// frame that was given, and afterwards the page translates to nothing.
pub proof fn lemma_unmap_after_map(
    before: Mapper,
    mapped: Mapper,
    after: Mapper,
    n: u64,
    frame: Frame,
    flags: u64,
)
    requires
        frame.valid(),
        flags & !ALL_FLAGS == 0,
        mapped.maps_onto(&before, n, frame.number, flags),
        after.unmaps_from(&mapped, n),
    ensures
        mapped.translation(n) == Some(frame.number),
        after.translation(n) is None,
{
    lemma_flags_with_present(flags);
    lemma_pack_unpack(frame.number, flags | PRESENT);
    lemma_zero_bits();
}

/// Mapping a page disturbs no other: whatever a page translated to before
/// a change that keeps every slot in use, it translates to afterwards.
pub proof fn lemma_translations_kept(before: Mapper, after: Mapper, n: u64)
    requires
        before.root() == after.root(),
        before.kept_by(&after),
        before.translation(n) is Some,
    ensures
        after.translation(n) == before.translation(n),
        after.misaligned_huge(n) == before.misaligned_huge(n),
{
    lemma_zero_bits();
}

/// A change that keeps every slot in use keeps the chain of tables to a
/// leaf slot that is in use, and the slot.
pub proof fn lemma_leaf_kept(before: Mapper, after: Mapper, n: u64, bits: u64)
    requires
        before.root() == after.root(),
        before.kept_by(&after),
        before.leaf_is(n, bits),
        bits != 0,
    ensures
        after.leaf_is(n, bits),
        after.p1_of(n) == before.p1_of(n),
{
    lemma_zero_bits();
}

/// Flags with the presence flag added are flags, and present.
pub proof fn lemma_flags_with_present(flags: u64)
    requires
        flags & !ALL_FLAGS == 0,
    ensures
        (flags | PRESENT) & !ALL_FLAGS == 0,
        (flags | PRESENT) & PRESENT != 0,
{
    assert((flags | 0x1u64) & !0x8000_0000_0000_01ffu64 == 0 && (flags | 0x1u64) & 0x1u64 != 0)
        by (bit_vector)
        requires
            flags & !0x8000_0000_0000_01ffu64 == 0,
    ;
}

/// The indices of the page at which a table is seen through the recursive slot.
proof fn lemma_table_address_indices(table_address: u64, index: usize)
    requires
        index < ENTRY_COUNT,
        table_address % PAGE_SIZE == 0,
        table_address >= 0xffff_0000_0000_0000,
    ensures
        ({
            let seen = (next_table_address_of(table_address, index) / PAGE_SIZE) as u64;
            let above = (table_address / PAGE_SIZE) as u64;
            &&& p4_index_of(seen) == p3_index_of(above)
            &&& p3_index_of(seen) == p2_index_of(above)
            &&& p2_index_of(seen) == p1_index_of(above)
            &&& p1_index_of(seen) == index
            &&& next_table_address_of(table_address, index) % PAGE_SIZE == 0
            &&& (p4_index_of(above) == 511 ==> next_table_address_of(table_address, index)
                >= 0xffff_0000_0000_0000)
        }),
{
    let i: u64 = index as u64;
    let a: u64 = table_address;
    let next: u64 = (a << 9) | (i << 12);
    assert((next / 0x1000) / 0x800_0000 % 512 == (a / 0x1000) / 0x4_0000 % 512 && (next / 0x1000)
        / 0x4_0000 % 512 == (a / 0x1000) / 0x200 % 512 && (next / 0x1000) / 0x200 % 512 == (a
        / 0x1000) % 512 && (next / 0x1000) % 512 == i && next % 0x1000 == 0 && ((a / 0x1000)
        / 0x800_0000 % 512 == 511 ==> next >= 0xffff_0000_0000_0000)) by (bit_vector)
        requires
            i < 512,
            a % 0x1000 == 0,
            a >= 0xffff_0000_0000_0000u64,
            next == (a << 9) | (i << 12),
    ;
}

/// What a page translates to whose first index names the recursive slot:
/// its other indices are followed from the root table, and the last of them
/// names the slot that gives the frame.
proof fn lemma_translation_one_level_up(mapper: Mapper, seen: u64, a: usize, b: usize, c: usize)
    requires
        mapper.wf(),
        p4_index_of(seen) == RECURSIVE_INDEX,
        p3_index_of(seen) == a,
        p2_index_of(seen) == b,
        p1_index_of(seen) == c,
    ensures
        mapper.translation(seen) == match next_table_of(
            &mapper.memory(),
            mapper.root(),
            a as int,
        ) {
            None => {
                let bits = mapper.slot(mapper.root(), a as int);
                if bits_present(bits) && bits_huge(bits) {
                    Some((bits_frame_number(bits) + b * FRAMES_PER_P2_ENTRY + c) as u64)
                } else {
                    None
                }
            },
            Some(p2) => match next_table_of(&mapper.memory(), p2, b as int) {
                None => {
                    let bits = mapper.slot(p2, b as int);
                    if bits_present(bits) && bits_huge(bits) {
                        Some((bits_frame_number(bits) + c) as u64)
                    } else {
                        None
                    }
                },
                Some(p1) => {
                    let bits = mapper.slot(p1, c as int);
                    if bits_present(bits) {
                        Some(bits_frame_number(bits))
                    } else {
                        None
                    }
                },
            },
        },
{
    assert(mapper.p3_of(seen) == Some(mapper.root()));
}

/// The recursive slot shows the tables as ordinary memory: the address that
/// `next_table_address` gives for a table, step by step from the root table's
/// address, translates to the frame in which that table lies.
pub proof fn lemma_tables_seen_through_recursive_slot(mapper: Mapper, n: u64)
    requires
        mapper.wf(),
    ensures
        mapper.translation((P4_TABLE_ADDRESS / PAGE_SIZE) as u64) == Some(mapper.root()),
        mapper.p3_of(n) is Some ==> mapper.translation((p3_table_address(n) / PAGE_SIZE) as u64)
            == mapper.p3_of(n),
        mapper.p2_of(n) is Some ==> mapper.translation((p2_table_address(n) / PAGE_SIZE) as u64)
            == mapper.p2_of(n),
        mapper.p1_of(n) is Some ==> mapper.translation((p1_table_address(n) / PAGE_SIZE) as u64)
            == mapper.p1_of(n),
{
    let root = mapper.root();
    let i4 = p4_index_of(n);
    let i3 = p3_index_of(n);
    let i2 = p2_index_of(n);
    let top = (P4_TABLE_ADDRESS / PAGE_SIZE) as u64;
    assert(top == 0xf_ffff_ffff_ffff);
    assert(p4_index_of(top) == 511 && p3_index_of(top) == 511 && p2_index_of(top) == 511
        && p1_index_of(top) == 511);
    assert(next_table_of(&mapper.memory(), root, 511) == Some(root));
    lemma_translation_one_level_up(mapper, top, 511, 511, 511);
    lemma_table_address_indices(P4_TABLE_ADDRESS, i4);
    let seen3 = (p3_table_address(n) / PAGE_SIZE) as u64;
    lemma_translation_one_level_up(mapper, seen3, 511, 511, i4);
    lemma_table_address_indices(p3_table_address(n), i3);
    let seen2 = (p2_table_address(n) / PAGE_SIZE) as u64;
    lemma_translation_one_level_up(mapper, seen2, 511, i4, i3);
    lemma_table_address_indices(p2_table_address(n), i2);
    let seen1 = (p1_table_address(n) / PAGE_SIZE) as u64;
    lemma_translation_one_level_up(mapper, seen1, i4, i3, i2);
}

/// A frame that was free and unused, and to which a page has then been
/// mapped, is unused again once the page has been unmapped: it can go
/// back to the allocator.
pub proof fn lemma_frame_unused_after_unmap(
    before: Mapper,
    mapped: Mapper,
    after: Mapper,
    n: u64,
    frame: Frame,
    flags: u64,
    free_before: Set<u64>,
    free_mapped: Set<u64>,
)
    requires
        frame.valid(),
        flags & !ALL_FLAGS == 0,
        before.frames_unused(free_before),
        free_before.contains(frame.number),
        mapped.maps_onto(&before, n, frame.number, flags),
        mapped.tables_taken(&before, n, free_before.remove(frame.number), free_mapped),
        after.unmaps_from(&mapped, n),
    ensures
        after.frame_unused(frame.number),
{
    lemma_flags_with_present(flags);
    lemma_pack_unpack(frame.number, flags | PRESENT);
    lemma_zero_bits();
    let number = frame.number;
    let p1 = mapped.p1_of(n)->0;
    // No slot on the way to the leaf slot refers to the frame.
    assert forall|t: u64, i: int|
        0 <= i < ENTRY_COUNT && bits_present(#[trigger] mapped.memory().entry_at(t, i)) && !(t
            == p1 && i == p1_index_of(n)) implies bits_frame_number(
        mapped.memory().entry_at(t, i),
    ) != number by {
        if mapped.memory().entry_at(t, i) == before.memory().entry_at(t, i) {
            assert(bits_present(before.memory().entry_at(t, i)));
        }
    }
    assert(mapped.p3_of(n) != Some(number));
    assert(mapped.p2_of(n) != Some(number));
    assert(mapped.p1_of(n) != Some(number));
    assert forall|i: int| 0 <= i < ENTRY_COUNT implies after.memory().entry_at(number, i)
        == 0 by {
        assert(before.memory().entry_at(number, i) == 0);
        if mapped.memory().entry_at(number, i) != 0 {
            assert(mapped.on_path(n, number, i));
        }
    }
    assert forall|t: u64, i: int|
        0 <= i < ENTRY_COUNT && bits_present(
            #[trigger] after.memory().entry_at(t, i),
        ) implies bits_frame_number(after.memory().entry_at(t, i)) != number by {
        assert(after.memory().entry_at(t, i) == mapped.memory().entry_at(t, i));
    }
}

} // verus!
