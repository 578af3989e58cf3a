use kernel_memory::address::Frame;
use kernel_memory::entry::{
    Entry, EntryFlags, ACCESSED, ADDRESS_MASK, ALL_FLAGS, DIRTY, GLOBAL, HUGE_PAGE, NO_CACHE,
    NO_EXECUTE, PRESENT, USER_ACCESSIBLE, WRITABLE, WRITE_THROUGH,
};

#[test]
fn flag_bits_follow_the_hardware_layout() {
    assert_eq!(PRESENT, 1 << 0);
    assert_eq!(WRITABLE, 1 << 1);
    assert_eq!(USER_ACCESSIBLE, 1 << 2);
    assert_eq!(WRITE_THROUGH, 1 << 3);
    assert_eq!(NO_CACHE, 1 << 4);
    assert_eq!(ACCESSED, 1 << 5);
    assert_eq!(DIRTY, 1 << 6);
    assert_eq!(HUGE_PAGE, 1 << 7);
    assert_eq!(GLOBAL, 1 << 8);
    assert_eq!(NO_EXECUTE, 1 << 63);
    assert_eq!(
        ALL_FLAGS,
        PRESENT | WRITABLE | USER_ACCESSIBLE | WRITE_THROUGH | NO_CACHE | ACCESSED | DIRTY
            | HUGE_PAGE | GLOBAL | NO_EXECUTE
    );
    assert_eq!(ADDRESS_MASK & ALL_FLAGS, 0);
}

#[test]
fn flags_drop_bits_that_are_no_flag() {
    assert_eq!(EntryFlags::empty().bits(), 0);
    assert_eq!(EntryFlags::from_bits_truncate(PRESENT | WRITABLE).bits(), 3);
    assert_eq!(EntryFlags::from_bits_truncate(0x1000 | PRESENT).bits(), PRESENT);
    assert_eq!(EntryFlags::from_bits_truncate(u64::MAX).bits(), ALL_FLAGS);
}

#[test]
fn flags_contains_and_union() {
    let present = EntryFlags::from_bits_truncate(PRESENT);
    let writable = EntryFlags::from_bits_truncate(WRITABLE);
    let both = present.union(writable);
    assert_eq!(both.bits(), PRESENT | WRITABLE);
    assert!(both.contains(present));
    assert!(both.contains(writable));
    assert!(both.contains(both));
    assert!(!present.contains(both));
    assert!(!present.contains(writable));
    assert!(present.contains(EntryFlags::empty()));
}

#[test]
fn unused_entry_has_nothing() {
    let entry = Entry::unused();
    assert!(entry.is_unused());
    assert_eq!(entry.bits(), 0);
    assert_eq!(entry.frame(), None);
    assert_eq!(entry.flags(), EntryFlags::empty());
    assert!(!entry.is_huge());
}

#[test]
fn set_entry_holds_frame_and_flags() {
    let mut entry = Entry::unused();
    entry.set(Frame { number: 0x1234 }, EntryFlags::from_bits_truncate(PRESENT | WRITABLE));
    assert!(!entry.is_unused());
    assert_eq!(entry.bits(), 0x1234 * 4096 + 3);
    assert_eq!(entry.frame(), Some(Frame { number: 0x1234 }));
    assert_eq!(entry.flags().bits(), PRESENT | WRITABLE);
    assert!(!entry.is_huge());
}

#[test]
fn set_entry_with_the_highest_frame_and_every_flag() {
    let mut entry = Entry::unused();
    let highest = Frame { number: (1 << 40) - 1 };
    entry.set(highest.clone(), EntryFlags::from_bits_truncate(ALL_FLAGS));
    assert_eq!(entry.bits(), ADDRESS_MASK | ALL_FLAGS);
    assert_eq!(entry.frame(), Some(highest));
    assert_eq!(entry.flags().bits(), ALL_FLAGS);
    assert!(entry.is_huge());
}

#[test]
fn set_unused_clears_the_entry() {
    let mut entry = Entry::unused();
    entry.set(Frame { number: 7 }, EntryFlags::from_bits_truncate(PRESENT | NO_EXECUTE));
    entry.set_unused();
    assert!(entry.is_unused());
    assert_eq!(entry.frame(), None);
    assert_eq!(entry, Entry::unused());
}
