//! One slot of a page table in the hardware's bit layout: a presence bit,
//! permission and caching bits, and the address of the frame it refers to.

use vstd::prelude::*;
use crate::address::{Frame, FRAME_NUMBER_LIMIT, PAGE_SIZE};

verus! {

pub const PRESENT: u64 = 0x1;

pub const WRITABLE: u64 = 0x2;

pub const USER_ACCESSIBLE: u64 = 0x4;

pub const WRITE_THROUGH: u64 = 0x8;

pub const NO_CACHE: u64 = 0x10;

pub const ACCESSED: u64 = 0x20;

pub const DIRTY: u64 = 0x40;

pub const HUGE_PAGE: u64 = 0x80;

pub const GLOBAL: u64 = 0x100;

pub const NO_EXECUTE: u64 = 0x8000_0000_0000_0000;

/// Every bit that is a flag.
pub const ALL_FLAGS: u64 = 0x8000_0000_0000_01ff;

/// The bits of a slot that hold the frame's address.
pub const ADDRESS_MASK: u64 = 0x000f_ffff_ffff_f000;

/// The slot refers to a frame.
pub open spec fn bits_present(bits: u64) -> bool {
    bits & PRESENT != 0
}

/// The slot maps a huge page instead of naming a lower table.
pub open spec fn bits_huge(bits: u64) -> bool {
    bits & HUGE_PAGE != 0
}

/// The flag bits of a slot.
pub open spec fn bits_flags(bits: u64) -> u64 {
    bits & ALL_FLAGS
}

/// Number of the frame whose address a slot holds.
pub open spec fn bits_frame_number(bits: u64) -> u64 {
    (bits & ADDRESS_MASK) / PAGE_SIZE
}

/// The slot that refers to frame `number` with the flag bits `flags`.
pub open spec fn pack(number: u64, flags: u64) -> u64 {
    ((number * PAGE_SIZE) as u64) | flags
}

/// A slot is either all zero or has its presence bit set.
pub open spec fn bits_well_formed(bits: u64) -> bool {
    bits == 0 || bits_present(bits)
}

/// Packing a frame with flags and reading the slot back gives both again.
pub proof fn lemma_pack_unpack(number: u64, flags: u64)
    requires
        number < FRAME_NUMBER_LIMIT,
        flags & !ALL_FLAGS == 0,
    ensures
        bits_frame_number(pack(number, flags)) == number,
        bits_flags(pack(number, flags)) == flags,
        bits_present(pack(number, flags)) == (flags & PRESENT != 0),
        bits_huge(pack(number, flags)) == (flags & HUGE_PAGE != 0),
{
    let address: u64 = (number * PAGE_SIZE) as u64;
    assert(address == number * 0x1000);
    let bits: u64 = address | flags;
    assert((bits & 0x000f_ffff_ffff_f000) / 0x1000 == number && bits & 0x8000_0000_0000_01ff
        == flags && (bits & 0x1 != 0) == (flags & 0x1 != 0) && (bits & 0x80 != 0) == (flags & 0x80
        != 0)) by (bit_vector)
        requires
            number < 0x0000_0100_0000_0000u64,
            flags & !0x8000_0000_0000_01ffu64 == 0,
            address == number * 0x1000,
            bits == address | flags,
    ;
}

/// A set of permission and caching flags.
#[derive(Debug, Clone, Copy, PartialEq, Eq)]
pub struct EntryFlags {
    bits: u64,
}

impl View for EntryFlags {
    type V = u64;

    /// The flags as bits.
    closed spec fn view(&self) -> u64 {
        self.bits
    }
}

impl EntryFlags {
    #[verifier::type_invariant]
    spec fn only_flag_bits(&self) -> bool {
        self.bits & !ALL_FLAGS == 0
    }

    /// No flag.
    pub fn empty() -> (flags: EntryFlags)
        ensures
            flags@ == 0,
    {
        assert(0u64 & !0x8000_0000_0000_01ffu64 == 0) by (bit_vector);
        EntryFlags { bits: 0 }
    }

    /// The flags among `bits`; bits that are no flag are dropped.
    pub fn from_bits_truncate(bits: u64) -> (flags: EntryFlags)
        ensures
            flags@ == bits & ALL_FLAGS,
            bits & !ALL_FLAGS == 0 ==> flags@ == bits,
            flags@ & !ALL_FLAGS == 0,
    {
        assert((bits & 0x8000_0000_0000_01ffu64) & !0x8000_0000_0000_01ffu64 == 0) by (bit_vector);
        assert(bits & !0x8000_0000_0000_01ffu64 == 0 ==> bits & 0x8000_0000_0000_01ffu64 == bits)
            by (bit_vector);
        EntryFlags { bits: bits & ALL_FLAGS }
    }

    /// The flags for the pages of a loaded section of the kernel: present,
    /// writable if the section is, and closed to execution unless the section
    /// holds code.
    pub fn for_section(writable: bool, executable: bool) -> (flags: EntryFlags)
        ensures
            flags@ == PRESENT | (if writable {
                WRITABLE
            } else {
                0
            }) | (if executable {
                0
            } else {
                NO_EXECUTE
            }),
            flags@ & !ALL_FLAGS == 0,
    {
        let write: u64 = if writable {
            WRITABLE
        } else {
            0
        };
        let no_execute: u64 = if executable {
            0
        } else {
            NO_EXECUTE
        };
        let bits: u64 = PRESENT | write | no_execute;
        assert(bits & !0x8000_0000_0000_01ffu64 == 0) by (bit_vector)
            requires
                bits == 0x1u64 | write | no_execute,
                write == 0x2u64 || write == 0,
                no_execute == 0x8000_0000_0000_0000u64 || no_execute == 0,
        ;
        EntryFlags::from_bits_truncate(bits)
    }

    /// The flags as bits.
    pub fn bits(&self) -> (bits: u64)
        ensures
            bits == self@,
            bits & !ALL_FLAGS == 0,
    {
        proof {
            use_type_invariant(self);
        }
        self.bits
    }

    /// Whether every flag of `other` is among these.
    pub fn contains(&self, other: EntryFlags) -> (all: bool)
        ensures
            all == (self@ & other@ == other@),
    {
        self.bits & other.bits == other.bits
    }

    /// These flags and those of `other`.
    pub fn union(self, other: EntryFlags) -> (flags: EntryFlags)
        ensures
            flags@ == self@ | other@,
            flags@ & !ALL_FLAGS == 0,
    {
        proof {
            use_type_invariant(&self);
            use_type_invariant(&other);
        }
        let a: u64 = self.bits;
        let b: u64 = other.bits;
        assert((a | b) & !0x8000_0000_0000_01ffu64 == 0) by (bit_vector)
            requires
                a & !0x8000_0000_0000_01ffu64 == 0,
                b & !0x8000_0000_0000_01ffu64 == 0,
        ;
        EntryFlags { bits: a | b }
    }
}

/// One slot of a page table.
#[derive(Debug, Clone, Copy, PartialEq, Eq)]
pub struct Entry {
    bits: u64,
}

impl View for Entry {
    type V = u64;

    /// The slot as the hardware reads it.
    closed spec fn view(&self) -> u64 {
        self.bits
    }
}

impl Entry {
    #[verifier::type_invariant]
    spec fn unused_or_present(&self) -> bool {
        bits_well_formed(self.bits)
    }

    /// A slot that refers to nothing.
    pub fn unused() -> (entry: Entry)
        ensures
            entry@ == 0,
    {
        Entry { bits: 0 }
    }

    /// The slot as the hardware reads it.
    pub fn bits(&self) -> (bits: u64)
        ensures
            bits == self@,
            bits_well_formed(bits),
    {
        proof {
            use_type_invariant(self);
        }
        self.bits
    }

    /// Whether the slot refers to nothing.
    pub fn is_unused(&self) -> (unused: bool)
        ensures
            unused == (self@ == 0),
            unused == !bits_present(self@),
    {
        proof {
            use_type_invariant(self);
            assert(!(0u64 & 0x1 != 0)) by (bit_vector);
        }
        self.bits == 0
    }

    /// Makes the slot refer to nothing.
    pub fn set_unused(&mut self)
        ensures
            final(self)@ == 0,
    {
        self.bits = 0;
    }

    /// The slot's flags.
    pub fn flags(&self) -> (flags: EntryFlags)
        ensures
            flags@ == bits_flags(self@),
    {
        EntryFlags::from_bits_truncate(self.bits)
    }

    /// Whether the slot has the huge-page flag.
    pub fn is_huge(&self) -> (huge: bool)
        ensures
            huge == bits_huge(self@),
    {
        self.bits & HUGE_PAGE != 0
    }

    /// The frame the slot refers to, if it refers to one.
    pub fn frame(&self) -> (frame: Option<Frame>)
        ensures
            frame == if bits_present(self@) {
                Some(Frame { number: bits_frame_number(self@) })
            } else {
                None
            },
            frame is Some ==> frame->0.valid(),
    {
        let bits: u64 = self.bits;
        assert((bits & 0x000f_ffff_ffff_f000u64) / 0x1000 < 0x0000_0100_0000_0000u64)
            by (bit_vector);
        if self.bits & PRESENT != 0 {
            Some(Frame::containing_address(self.bits & ADDRESS_MASK))
        } else {
            None
        }
    }

    /// Fills an unused slot with a frame and its flags.
    pub fn set(&mut self, frame: Frame, flags: EntryFlags)
        requires
            old(self)@ == 0,
            frame.valid(),
            flags@ & PRESENT != 0,
        ensures
            final(self)@ == pack(frame.number, flags@),
            bits_present(final(self)@),
            bits_frame_number(final(self)@) == frame.number,
            bits_flags(final(self)@) == flags@,
    {
        proof {
            use_type_invariant(&flags);
            lemma_pack_unpack(frame.number, flags@);
        }
        self.bits = frame.start_address() | flags.bits;
    }
}

} // verus!
