//! Page tables, and the memory that holds them.
//!
//! A table is 512 slots and fills exactly one frame. The tables of a
//! hierarchy lie in physical memory, each in the frame that the slot above it
//! names; `TableMemory` is that memory as far as tables are concerned: it
//! gives the slots of any frame, and a frame in which nothing was ever
//! written reads as 512 unused slots.

use vstd::prelude::*;
use std::collections::HashMap;
use crate::address::{Frame, ENTRY_COUNT};
use crate::allocator::FrameAllocator;
use crate::entry::{
    bits_frame_number, bits_huge, bits_present, lemma_pack_unpack, pack, Entry, EntryFlags,
    PRESENT, WRITABLE,
};

verus! {

broadcast use vstd::std_specs::hash::group_hash_axioms;

/// One page table: 512 slots.
pub struct Table {
    entries: Vec<Entry>,
}

impl View for Table {
    type V = Seq<u64>;

    /// The slots as the hardware reads them.
    closed spec fn view(&self) -> Seq<u64> {
        Seq::new(self.entries@.len(), |i: int| self.entries@[i]@)
    }
}

impl Table {
    /// The table has its 512 slots.
    pub closed spec fn wf(&self) -> bool {
        self.entries@.len() == ENTRY_COUNT
    }

    /// From `wf`: the view has 512 slots.
    pub proof fn lemma_len(&self)
        requires
            self.wf(),
        ensures
            self@.len() == ENTRY_COUNT,
    {
    }

    /// A table of unused slots.
    pub fn new() -> (table: Table)
        ensures
            table.wf(),
            forall|i: int| 0 <= i < ENTRY_COUNT ==> table@[i] == 0,
    {
        let mut entries: Vec<Entry> = Vec::with_capacity(ENTRY_COUNT);
        let mut count: usize = 0;
        while count < ENTRY_COUNT
            invariant
                count <= ENTRY_COUNT,
                entries@.len() == count,
                forall|i: int| 0 <= i < count ==> (#[trigger] entries@[i])@ == 0,
            decreases ENTRY_COUNT - count,
        {
            entries.push(Entry::unused());
            count += 1;
        }
        Table { entries }
    }

    /// Marks every slot unused.
    pub fn zero(&mut self)
        requires
            old(self).wf(),
        ensures
            final(self).wf(),
            forall|i: int| 0 <= i < ENTRY_COUNT ==> final(self)@[i] == 0,
    {
        let mut index: usize = 0;
        while index < ENTRY_COUNT
            invariant
                index <= ENTRY_COUNT,
                self.entries@.len() == ENTRY_COUNT,
                forall|i: int| 0 <= i < index ==> (#[trigger] self.entries@[i])@ == 0,
            decreases ENTRY_COUNT - index,
        {
            self.entries.set(index, Entry::unused());
            index += 1;
        }
    }

    /// The slot at `index`.
    pub fn entry(&self, index: usize) -> (entry: Entry)
        requires
            self.wf(),
            index < ENTRY_COUNT,
        ensures
            entry@ == self@[index as int],
    {
        self.entries[index]
    }

    /// Replaces the slot at `index`.
    pub fn set_entry(&mut self, index: usize, entry: Entry)
        requires
            old(self).wf(),
            index < ENTRY_COUNT,
        ensures
            final(self).wf(),
            final(self)@ == old(self)@.update(index as int, entry@),
    {
        self.entries.set(index, entry);
        assert(final(self)@ =~= old(self)@.update(index as int, entry@));
    }
}

/// The frames that hold tables, by frame number.
pub struct TableMemory {
    tables: HashMap<u64, Table>,
}

impl TableMemory {
    /// Every table that is held has its 512 slots.
    pub closed spec fn wf(&self) -> bool {
        forall|frame: u64| #[trigger]
            self.tables@.contains_key(frame) ==> self.tables@[frame].wf()
    }

    /// The slot at `index` of the table in `frame`, as the hardware reads it.
    pub closed spec fn entry_at(&self, frame: u64, index: int) -> u64 {
        if self.tables@.contains_key(frame) {
            self.tables@[frame]@[index]
        } else {
            0
        }
    }

    /// Nothing is written in `frame`.
    pub open spec fn blank(&self, frame: u64) -> bool {
        forall|i: int| 0 <= i < ENTRY_COUNT ==> self.entry_at(frame, i) == 0
    }

    /// The two memories agree in every slot but, possibly, slot `index` of `frame`.
    pub open spec fn same_but(&self, other: &TableMemory, frame: u64, index: int) -> bool {
        forall|f: u64, i: int|
            0 <= i < ENTRY_COUNT && !(f == frame && i == index) ==> self.entry_at(f, i)
                == other.entry_at(f, i)
    }

    /// A memory in which nothing is written.
    pub fn new() -> (memory: TableMemory)
        ensures
            memory.wf(),
            forall|f: u64| memory.blank(f),
    {
        TableMemory { tables: HashMap::new() }
    }

    /// Reads one slot.
    pub fn read(&self, frame: u64, index: usize) -> (entry: Entry)
        requires
            self.wf(),
            index < ENTRY_COUNT,
        ensures
            entry@ == self.entry_at(frame, index as int),
    {
        match self.tables.get(&frame) {
            Some(table) => table.entry(index),
            None => Entry::unused(),
        }
    }

    /// Writes one slot and leaves every other as it was.
    pub fn write(&mut self, frame: u64, index: usize, entry: Entry)
        requires
            old(self).wf(),
            index < ENTRY_COUNT,
        ensures
            final(self).wf(),
            final(self).entry_at(frame, index as int) == entry@,
            final(self).same_but(old(self), frame, index as int),
    {
        let mut table = match self.tables.remove(&frame) {
            Some(table) => table,
            None => Table::new(),
        };
        proof {
            table.lemma_len();
        }
        let ghost before = table@;
        table.set_entry(index, entry);
        self.tables.insert(frame, table);
        assert forall|f: u64, i: int|
            0 <= i < ENTRY_COUNT && !(f == frame && i == index) implies final(self).entry_at(f, i)
                == old(self).entry_at(f, i) by {
            if f == frame {
                assert(final(self).tables@[f]@[i] == before[i]);
            }
        }
    }

    /// Marks every slot of `frame` unused and leaves every other frame as it was.
    pub fn zero(&mut self, frame: u64)
        requires
            old(self).wf(),
        ensures
            final(self).wf(),
            final(self).blank(frame),
            forall|f: u64, i: int|
                0 <= i < ENTRY_COUNT && f != frame ==> final(self).entry_at(f, i)
                    == old(self).entry_at(f, i),
    {
        self.tables.remove(&frame);
    }
}

/// Depth of a table in the hierarchy, from the root `P4` down to the leaf `P1`.
#[derive(Debug, Clone, Copy, PartialEq, Eq, Structural)]
pub enum Level {
    P4,
    P3,
    P2,
    P1,
}

impl Level {
    /// Tables above the leaf level have tables below them.
    pub open spec fn has_next(self) -> bool {
        self != Level::P1
    }

    /// The level below; the leaf level has none and stays.
    pub open spec fn next(self) -> Level {
        match self {
            Level::P4 => Level::P3,
            Level::P3 => Level::P2,
            Level::P2 => Level::P1,
            Level::P1 => Level::P1,
        }
    }

    /// The level below a level that is not the leaf level.
    pub fn lower(self) -> (level: Level)
        requires
            self.has_next(),
        ensures
            level == self.next(),
    {
        match self {
            Level::P4 => Level::P3,
            Level::P3 => Level::P2,
            _ => Level::P1,
        }
    }
}

/// The frame of the table that slot `index` of the table in `table` names:
/// the slot must be present and must not map a huge page.
pub open spec fn next_table_of(memory: &TableMemory, table: u64, index: int) -> Option<u64> {
    let bits = memory.entry_at(table, index);
    if bits_present(bits) && !bits_huge(bits) {
        Some(bits_frame_number(bits))
    } else {
        None
    }
}

/// No frame of `free` is in use by the tables: nothing is written in it, and
/// no present slot refers to it.
pub open spec fn unused_by(memory: &TableMemory, free: Set<u64>) -> bool {
    &&& forall|f: u64, i: int|
        free.contains(f) && 0 <= i < ENTRY_COUNT ==> #[trigger] memory.entry_at(f, i) == 0
    &&& forall|t: u64, i: int|
        0 <= i < ENTRY_COUNT && bits_present(#[trigger] memory.entry_at(t, i))
            ==> !free.contains(bits_frame_number(memory.entry_at(t, i)))
}

/// A table of a hierarchy: the frame it lies in, and its level.
#[derive(Debug, Clone, Copy, PartialEq, Eq, Structural)]
pub struct TableHandle {
    pub frame: u64,
    pub level: Level,
}

impl TableHandle {
    /// The root table of the hierarchy that starts in `frame`.
    pub fn root(frame: u64) -> (table: TableHandle)
        ensures
            table.frame == frame,
            table.level == Level::P4,
    {
        TableHandle { frame, level: Level::P4 }
    }

    /// The slot at `index`.
    pub fn entry(&self, memory: &TableMemory, index: usize) -> (entry: Entry)
        requires
            memory.wf(),
            index < ENTRY_COUNT,
        ensures
            entry@ == memory.entry_at(self.frame, index as int),
    {
        memory.read(self.frame, index)
    }

    /// The table below, through slot `index`, if the slot names one.
    pub fn next_table(&self, memory: &TableMemory, index: usize) -> (next: Option<TableHandle>)
        requires
            memory.wf(),
            self.level.has_next(),
            index < ENTRY_COUNT,
        ensures
            next == match next_table_of(memory, self.frame, index as int) {
                Some(frame) => Some(TableHandle { frame, level: self.level.next() }),
                None => None,
            },
    {
        let entry = memory.read(self.frame, index);
        match entry.frame() {
            Some(frame) => {
                if entry.is_huge() {
                    None
                } else {
                    Some(TableHandle { frame: frame.number, level: self.level.lower() })
                }
            },
            None => None,
        }
    }

    /// The table below, through slot `index`; where the slot is unused, a
    /// frame is taken from `allocator`, cleared, and installed there as a
    /// table that is writable and closed to user mode.
    pub fn next_table_create<A: FrameAllocator>(
        &self,
        memory: &mut TableMemory,
        index: usize,
        allocator: &mut A,
    ) -> (next: TableHandle)
        requires
            old(memory).wf(),
            old(allocator).wf(),
            self.level.has_next(),
            index < ENTRY_COUNT,
            !bits_huge(old(memory).entry_at(self.frame, index as int)),
            next_table_of(old(memory), self.frame, index as int) is None
                ==> old(allocator).free_frames().len() > 0,
            unused_by(old(memory), old(allocator).free_frames()),
            !old(allocator).free_frames().contains(self.frame),
        ensures
            final(memory).wf(),
            final(allocator).wf(),
            next.level == self.level.next(),
            next_table_of(final(memory), self.frame, index as int) == Some(next.frame),
            final(memory).same_but(old(memory), self.frame, index as int),
            unused_by(final(memory), final(allocator).free_frames()),
            !final(allocator).free_frames().contains(next.frame),
            match next_table_of(old(memory), self.frame, index as int) {
                Some(frame) => {
                    &&& next.frame == frame
                    &&& final(memory).entry_at(self.frame, index as int) == old(memory).entry_at(
                        self.frame,
                        index as int,
                    )
                    &&& final(allocator).free_frames() == old(allocator).free_frames()
                },
                None => {
                    &&& old(memory).entry_at(self.frame, index as int) == 0
                    &&& old(allocator).free_frames().contains(next.frame)
                    &&& final(allocator).free_frames() == old(allocator).free_frames().remove(
                        next.frame,
                    )
                    &&& final(memory).entry_at(self.frame, index as int) == pack(
                        next.frame,
                        PRESENT | WRITABLE,
                    )
                    &&& final(memory).blank(next.frame)
                },
            },
    {
        match self.next_table(memory, index) {
            Some(next) => next,
            None => {
                let mut entry = memory.read(self.frame, index);
                let unused = entry.is_unused();
                proof {
                    allocator.lemma_free_frames();
                    assert(unused);
                }
                let frame = match allocator.allocate_frame() {
                    Some(frame) => frame,
                    None => {
                        proof {
                            assert(old(allocator).free_frames().len() == 0);
                        }
                        vstd::pervasive::unreached()
                    },
                };
                let number: u64 = frame.number;
                memory.zero(number);
                let flags = EntryFlags::from_bits_truncate(PRESENT | WRITABLE);
                proof {
                    assert((0x1u64 | 0x2u64) & !0x8000_0000_0000_01ffu64 == 0) by (bit_vector);
                    assert((0x1u64 | 0x2u64) & 0x1u64 != 0) by (bit_vector);
                    assert((0x1u64 | 0x2u64) & 0x80u64 == 0) by (bit_vector);
                    lemma_pack_unpack(number, PRESENT | WRITABLE);
                }
                entry.set(frame, flags);
                memory.write(self.frame, index, entry);
                TableHandle { frame: number, level: self.level.lower() }
            },
        }
    }
}

} // verus!
