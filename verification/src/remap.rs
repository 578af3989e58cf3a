//! Start-up: filling the kernel's own hierarchy of page tables.

use vstd::prelude::*;
use crate::address::{Frame, PhysicalAddress, LOW_HALF_END, PAGE_SIZE, VGA_BUFFER};
use crate::allocator::FrameAllocator;
use crate::entry::{lemma_pack_unpack, pack, EntryFlags, NO_EXECUTE, PRESENT, WRITABLE};
use crate::mapper::{
    lemma_flags_with_present, lemma_leaf_kept, lemma_zero_bits, MapError, Mapper,
};
use crate::pmm::FramePool;

verus! {

/// Number of the frame that holds the VGA text buffer.
pub const VGA_FRAME: u64 = 0xb8;

/// One loaded section of the kernel image: the memory from `start` up to,
/// not including, `end`, and what the section's code and data need of it.
#[derive(Debug, Clone, Copy, PartialEq, Eq)]
pub struct KernelSection {
    pub start: PhysicalAddress,
    pub end: PhysicalAddress,
    pub writable: bool,
    pub executable: bool,
}

impl KernelSection {
    /// The section holds no byte.
    pub open spec fn is_empty(&self) -> bool {
        self.start >= self.end
    }

    /// The section starts at a page boundary and ends in the low half.
    pub open spec fn mappable(&self) -> bool {
        self.start % PAGE_SIZE == 0 && self.end <= LOW_HALF_END
    }

    /// Number of the frame that holds the section's first byte.
    pub open spec fn first_frame(&self) -> u64 {
        self.start / PAGE_SIZE
    }

    /// Number of the frame that holds the section's last byte.
    pub open spec fn last_frame(&self) -> u64 {
        ((self.end - 1) / PAGE_SIZE as int) as u64
    }

    /// Frame `n` holds a byte of the section.
    pub open spec fn holds(&self, n: u64) -> bool {
        !self.is_empty() && self.first_frame() <= n <= self.last_frame()
    }

    /// The flag bits for the section's pages: present, writable if the
    /// section is, closed to execution unless the section holds code.
    pub open spec fn flag_bits(&self) -> u64 {
        PRESENT | (if self.writable {
            WRITABLE
        } else {
            0
        }) | (if self.executable {
            0
        } else {
            NO_EXECUTE
        })
    }

    /// The section is empty, or each of its frames is mapped at its own
    /// address with the section's flags.
    pub open spec fn mapped_in(&self, mapper: &Mapper) -> bool {
        self.is_empty() || mapper.identity_mapped(
            self.first_frame(),
            self.last_frame(),
            self.flag_bits(),
        )
    }
}

/// Why the kernel's hierarchy could not be filled.
#[derive(Debug, Clone, Copy, PartialEq, Eq)]
pub enum RemapError {
    /// The section with this index does not start at a page boundary, or
    /// reaches beyond the low half.
    BadSection { section: usize },
    /// A frame of the section with this index could not be mapped.
    Section { section: usize, error: MapError },
    /// The VGA text buffer could not be mapped.
    Vga { error: MapError },
}

/// The sections before the one with index `count` are mapped in `mapper`.
pub open spec fn sections_mapped(
    mapper: &Mapper,
    sections: Seq<KernelSection>,
    count: int,
) -> bool {
    forall|i: int| 0 <= i < count ==> (#[trigger] sections[i]).mapped_in(mapper)
}

/// A change that keeps every slot in use keeps the sections mapped.
pub proof fn lemma_sections_kept(
    before: Mapper,
    after: Mapper,
    sections: Seq<KernelSection>,
    count: int,
)
    requires
        0 <= count <= sections.len(),
        before.root() == after.root(),
        before.kept_by(&after),
        sections_mapped(&before, sections, count),
        forall|i: int| 0 <= i < count ==> (#[trigger] sections[i]).mappable(),
    ensures
        sections_mapped(&after, sections, count),
{
    assert forall|i: int| 0 <= i < count implies (#[trigger] sections[i]).mapped_in(&after) by {
        let section = sections[i];
        assert(section.mapped_in(&before));
        if !section.is_empty() {
            let flags = section.flag_bits();
            lemma_section_flags(section);
            assert forall|n: u64|
                section.first_frame() <= n <= section.last_frame() implies #[trigger] after.leaf_is(
                n,
                pack(n, flags | PRESENT),
            ) by {
                assert(before.leaf_is(n, pack(n, flags | PRESENT)));
                lemma_flags_with_present(flags);
                lemma_pack_unpack(n, flags | PRESENT);
                lemma_zero_bits();
                lemma_leaf_kept(before, after, n, pack(n, flags | PRESENT));
            }
        }
    }
}

/// A section's flag bits are flags.
pub proof fn lemma_section_flags(section: KernelSection)
    ensures
        section.flag_bits() & !crate::entry::ALL_FLAGS == 0,
{
    let write: u64 = if section.writable {
        WRITABLE
    } else {
        0
    };
    let no_execute: u64 = if section.executable {
        0
    } else {
        NO_EXECUTE
    };
    assert((0x1u64 | write | no_execute) & !0x8000_0000_0000_01ffu64 == 0) by (bit_vector)
        requires
            write == 0x2u64 || write == 0,
            no_execute == 0x8000_0000_0000_0000u64 || no_execute == 0,
    ;
}

impl Mapper {
    /// Maps the kernel at start-up: each frame of each section at its own
    /// address, with the section's flags, and then the VGA text buffer,
    /// writable. Stops at the first frame that cannot be mapped.
    pub fn map_kernel(&mut self, sections: &Vec<KernelSection>, pool: &mut FramePool) -> (result:
        Result<(), RemapError>)
        requires
            old(self).wf(),
            old(pool).wf(),
            old(self).frames_unused(old(pool).free_frames()),
        ensures
            final(self).wf(),
            final(pool).wf(),
            final(self).root() == old(self).root(),
            old(self).kept_by(final(self)),
            final(pool).free_frames().subset_of(old(pool).free_frames()),
            final(self).frames_unused(final(pool).free_frames()),
            match result {
                Ok(()) => {
                    &&& forall|i: int|
                        0 <= i < sections@.len() ==> (#[trigger] sections@[i]).mappable()
                    &&& sections_mapped(final(self), sections@, sections@.len() as int)
                    &&& final(self).identity_mapped(VGA_FRAME, VGA_FRAME, WRITABLE)
                },
                Err(RemapError::BadSection { section }) => {
                    &&& section < sections@.len()
                    &&& forall|i: int| 0 <= i < section ==> (#[trigger] sections@[i]).mappable()
                    &&& !sections@[section as int].mappable()
                    &&& sections_mapped(final(self), sections@, section as int)
                },
                Err(RemapError::Section { section, error }) => {
                    &&& section < sections@.len()
                    &&& forall|i: int| 0 <= i <= section ==> (#[trigger] sections@[i]).mappable()
                    &&& sections_mapped(final(self), sections@, section as int)
                    &&& !sections@[section as int].is_empty()
                    &&& final(self).stopped_at(
                        sections@[section as int].first_frame(),
                        sections@[section as int].last_frame(),
                        sections@[section as int].flag_bits(),
                        final(pool).free_frames(),
                        error,
                    )
                },
                Err(RemapError::Vga { error }) => {
                    &&& forall|i: int|
                        0 <= i < sections@.len() ==> (#[trigger] sections@[i]).mappable()
                    &&& sections_mapped(final(self), sections@, sections@.len() as int)
                    &&& final(self).stopped_at(
                        VGA_FRAME,
                        VGA_FRAME,
                        WRITABLE,
                        final(pool).free_frames(),
                        error,
                    )
                },
            },
    {
        let mut index: usize = 0;
        while index < sections.len()
            invariant
                self.wf(),
                pool.wf(),
                index <= sections@.len(),
                self.root() == old(self).root(),
                old(self).kept_by(self),
                pool.free_frames().subset_of(old(pool).free_frames()),
                self.frames_unused(pool.free_frames()),
                forall|i: int| 0 <= i < index ==> (#[trigger] sections@[i]).mappable(),
                sections_mapped(self, sections@, index as int),
            decreases sections@.len() - index,
        {
            let section = sections[index];
            if section.start % PAGE_SIZE != 0 || section.end > LOW_HALF_END {
                return Err(RemapError::BadSection { section: index });
            }
            if section.start < section.end {
                let flags = EntryFlags::for_section(section.writable, section.executable);
                let first = Frame::containing_address(section.start);
                let last = Frame::containing_address(section.end - 1);
                let ghost before = *self;
                match self.identity_map_range(first, last, flags, pool) {
                    Ok(()) => {},
                    Err(error) => {
                        proof {
                            lemma_sections_kept(before, *self, sections@, index as int);
                        }
                        return Err(RemapError::Section { section: index, error });
                    },
                }
                proof {
                    lemma_sections_kept(before, *self, sections@, index as int);
                }
            }
            index += 1;
        }
        let ghost before = *self;
        let vga = Frame::containing_address(VGA_BUFFER);
        let last = Frame::containing_address(VGA_BUFFER);
        let writable = EntryFlags::from_bits_truncate(WRITABLE);
        proof {
            assert(0x2u64 & !0x8000_0000_0000_01ffu64 == 0) by (bit_vector);
        }
        let result = self.identity_map_range(vga, last, writable, pool);
        proof {
            lemma_sections_kept(before, *self, sections@, sections@.len() as int);
        }
        match result {
            Ok(()) => Ok(()),
            Err(error) => Err(RemapError::Vga { error }),
        }
    }
}

} // verus!
