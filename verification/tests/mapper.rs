use kernel_memory::address::{Frame, Page, RECURSIVE_PAGE_OFFSET};
use kernel_memory::allocator::FrameAllocator;
use kernel_memory::entry::{EntryFlags, HUGE_PAGE, NO_EXECUTE, PRESENT, WRITABLE};
use kernel_memory::mapper::{Mapper, RECURSIVE_INDEX};
use kernel_memory::pmm::{FramePool, MemoryArea};
use kernel_memory::table::{Level, TableHandle};

const HIGH_HALF: u64 = 0xffff_8000_0000_0000;

fn pool_of(first: u64, count: u64) -> FramePool {
    let areas = vec![MemoryArea { base: first * 4096, length: count * 4096, usable: true }];
    FramePool::new(&areas, 0)
}

/// A hierarchy with its root table in frame 1 and a pool of the frames 16 to 79.
fn fresh() -> (Mapper, FramePool) {
    (Mapper::new(Frame { number: 1 }), pool_of(16, 64))
}

fn remaining(pool: &mut FramePool) -> usize {
    let mut count = 0;
    while pool.allocate_frame().is_some() {
        count += 1;
    }
    count
}

fn flags(bits: u64) -> EntryFlags {
    EntryFlags::from_bits_truncate(bits)
}

fn page_of(p4: u64, p3: u64, p2: u64, p1: u64) -> Page {
    let low = (p4 << 39) | (p3 << 30) | (p2 << 21) | (p1 << 12);
    let address = if p4 >= 256 { low | 0xffff_0000_0000_0000 } else { low };
    Page::containing_address(address)
}

#[test]
fn new_mapper_maps_nothing_but_its_tables() {
    let (mapper, _) = fresh();
    assert_eq!(mapper.p4(), TableHandle { frame: 1, level: Level::P4 });
    assert_eq!(mapper.translate(0), None);
    assert_eq!(mapper.translate(0x1234), None);
    assert_eq!(mapper.translate(HIGH_HALF), None);
    assert_eq!(mapper.translate_page(Page::containing_address(0xb8000)), None);
}

#[test]
fn recursive_slot_leads_back_to_the_root_table() {
    let (mapper, _) = fresh();
    assert_eq!(RECURSIVE_INDEX, 511);
    // All four indices 511: the walk stays in the root table.
    assert_eq!(mapper.translate(0xffff_ffff_ffff_f000), Some(0x1000));
    assert_eq!(mapper.translate(0xffff_ffff_ffff_f008), Some(0x1008));
    // One step out of the loop finds nothing yet.
    assert_eq!(mapper.translate(RECURSIVE_PAGE_OFFSET), None);
}

#[test]
fn map_high_half_page_to_frame_zero() {
    let (mut mapper, mut pool) = fresh();
    let page = Page::containing_address(HIGH_HALF);
    mapper.map_to(page, Frame { number: 0 }, flags(WRITABLE), &mut pool);
    assert_eq!(mapper.translate(0xffff_8000_0000_0123), Some(0x123));
    assert_eq!(mapper.translate(HIGH_HALF), Some(0));
    assert_eq!(mapper.translate_page(page), Some(Frame { number: 0 }));
    // The neighbouring page is not mapped.
    assert_eq!(mapper.translate(0xffff_8000_0000_1000), None);
}

#[test]
fn translate_adds_the_offset_in_the_page() {
    let (mut mapper, mut pool) = fresh();
    let frame = Frame { number: 0xabcde };
    for address in [0x40_0000u64, 0x40_0001, 0x40_0fff, 0x7fff_ffff_f123, HIGH_HALF + 0x5432] {
        let page = Page::containing_address(address);
        if mapper.translate_page(page).is_none() {
            mapper.map_to(page, frame.clone(), flags(WRITABLE), &mut pool);
        }
        assert_eq!(mapper.translate(address), Some(frame.start_address() + address % 4096));
    }
}

#[test]
fn map_to_creates_the_tables_on_the_way() {
    let (mut mapper, mut pool) = fresh();
    let page = page_of(3, 4, 5, 6);
    assert_eq!(mapper.tables_to_create(page), Some(3));
    mapper.map_to(page, Frame { number: 100 }, flags(WRITABLE | NO_EXECUTE), &mut pool);
    assert_eq!(remaining(&mut pool), 61);
    // The tables themselves can be read through the recursive slot.
    let p3 = mapper.translate_page(page_of(511, 511, 511, 3)).unwrap();
    let p2 = mapper.translate_page(page_of(511, 511, 3, 4)).unwrap();
    let p1 = mapper.translate_page(page_of(511, 3, 4, 5)).unwrap();
    let mut tables = vec![p3.number, p2.number, p1.number];
    tables.sort();
    assert_eq!(tables, vec![16, 17, 18]);
}

#[test]
fn map_to_uses_the_tables_that_are_there() {
    let (mut mapper, mut pool) = fresh();
    mapper.map_to(page_of(3, 4, 5, 6), Frame { number: 100 }, flags(WRITABLE), &mut pool);
    assert_eq!(mapper.tables_to_create(page_of(3, 4, 5, 7)), Some(0));
    assert_eq!(mapper.tables_to_create(page_of(3, 4, 6, 6)), Some(1));
    assert_eq!(mapper.tables_to_create(page_of(3, 5, 5, 6)), Some(2));
    assert_eq!(mapper.tables_to_create(page_of(4, 4, 5, 6)), Some(3));
    mapper.map_to(page_of(3, 4, 5, 7), Frame { number: 101 }, flags(WRITABLE), &mut pool);
    mapper.map_to(page_of(3, 4, 6, 6), Frame { number: 102 }, flags(WRITABLE), &mut pool);
    mapper.map_to(page_of(3, 5, 5, 6), Frame { number: 103 }, flags(WRITABLE), &mut pool);
    assert_eq!(remaining(&mut pool), 64 - 3 - 0 - 1 - 2);
    assert_eq!(mapper.translate_page(page_of(3, 4, 5, 6)), Some(Frame { number: 100 }));
    assert_eq!(mapper.translate_page(page_of(3, 4, 5, 7)), Some(Frame { number: 101 }));
    assert_eq!(mapper.translate_page(page_of(3, 4, 6, 6)), Some(Frame { number: 102 }));
    assert_eq!(mapper.translate_page(page_of(3, 5, 5, 6)), Some(Frame { number: 103 }));
    assert_eq!(mapper.translate_page(page_of(3, 4, 5, 8)), None);
}

#[test]
fn mapped_page_cannot_be_mapped_again() {
    let (mut mapper, mut pool) = fresh();
    let page = Page::containing_address(0x40_0000);
    assert_eq!(mapper.tables_to_create(page), Some(3));
    mapper.map_to(page, Frame { number: 50 }, flags(WRITABLE), &mut pool);
    assert_eq!(mapper.tables_to_create(page), None);
    mapper.unmap(page, &mut pool);
    assert_eq!(mapper.tables_to_create(page), Some(0));
    mapper.map_to(page, Frame { number: 51 }, flags(WRITABLE), &mut pool);
    assert_eq!(mapper.translate_page(page), Some(Frame { number: 51 }));
    assert_eq!(mapper.tables_to_create(page), None);
}

#[test]
fn map_takes_a_frame_from_the_allocator() {
    let (mut mapper, mut pool) = fresh();
    let page = Page::containing_address(0x1234_5000);
    mapper.map(page, flags(WRITABLE), &mut pool);
    let frame = mapper.translate_page(page).expect("the page is mapped");
    assert!(frame.number >= 16 && frame.number < 80);
    assert_eq!(mapper.translate(0x1234_5678), Some(frame.start_address() + 0x678));
    // One frame for the page and three for the tables.
    assert_eq!(remaining(&mut pool), 60);
}

#[test]
fn unmap_returns_the_frame_that_map_took() {
    let (mut mapper, mut pool) = fresh();
    let page = Page::containing_address(HIGH_HALF + 0x7000);
    mapper.map(page, flags(WRITABLE), &mut pool);
    let mapped = mapper.translate_page(page).unwrap();
    assert!(mapper.can_unmap(page));
    let freed = mapper.unmap(page, &mut pool);
    assert_eq!(freed, mapped);
    assert_eq!(mapper.translate_page(page), None);
    assert_eq!(mapper.translate(HIGH_HALF + 0x7000), None);
    assert!(!mapper.can_unmap(page));
    // The frame is free again: the pool hands it out first.
    assert_eq!(pool.allocate_frame(), Some(freed));
}

#[test]
fn unmap_leaves_the_other_pages_and_the_tables() {
    let (mut mapper, mut pool) = fresh();
    let first = page_of(1, 2, 3, 4);
    let second = page_of(1, 2, 3, 5);
    mapper.map_to(first, Frame { number: 200 }, flags(WRITABLE), &mut pool);
    mapper.map_to(second, Frame { number: 201 }, flags(WRITABLE), &mut pool);
    assert_eq!(mapper.unmap(first, &mut pool), Frame { number: 200 });
    assert_eq!(mapper.translate_page(first), None);
    assert_eq!(mapper.translate_page(second), Some(Frame { number: 201 }));
    assert_eq!(mapper.unmap(second, &mut pool), Frame { number: 201 });
    // The emptied tables stay where they are.
    assert_eq!(mapper.tables_to_create(first), Some(0));
    assert!(mapper.translate_page(page_of(511, 1, 2, 3)).is_some());
}

#[test]
fn pages_that_are_not_mapped_cannot_be_unmapped() {
    let (mut mapper, mut pool) = fresh();
    assert!(!mapper.can_unmap(page_of(1, 2, 3, 4)));
    mapper.map_to(page_of(1, 2, 3, 4), Frame { number: 200 }, flags(WRITABLE), &mut pool);
    assert!(mapper.can_unmap(page_of(1, 2, 3, 4)));
    assert!(!mapper.can_unmap(page_of(1, 2, 3, 5)));
    assert!(!mapper.can_unmap(page_of(1, 2, 4, 4)));
    assert!(!mapper.can_unmap(page_of(2, 2, 3, 4)));
    // The recursive slot is never given up.
    assert!(!mapper.can_unmap(page_of(511, 511, 511, 511)));
}

#[test]
fn identity_map_maps_a_frame_to_its_own_address() {
    let (mut mapper, mut pool) = fresh();
    mapper.identity_map(Frame { number: 0xb8 }, flags(WRITABLE), &mut pool);
    assert_eq!(mapper.translate(0xb8000), Some(0xb8000));
    assert_eq!(mapper.translate(0xb8f9e), Some(0xb8f9e));
    assert_eq!(mapper.translate(0xb9000), None);
}

#[test]
fn huge_pages_are_translated_from_their_first_frame() {
    let (mut mapper, mut pool) = fresh();
    // Make the tables on the way to page (2, 3, 4, 5).
    mapper.map_to(page_of(2, 3, 4, 5), Frame { number: 300 }, flags(WRITABLE), &mut pool);
    // Through the recursive slot, write a slot of the second-level table:
    // a 2 MiB page that starts at frame 1024.
    mapper.map_to(
        page_of(511, 2, 3, 7),
        Frame { number: 1024 },
        flags(WRITABLE | HUGE_PAGE),
        &mut pool,
    );
    assert!(mapper.huge_pages_aligned(page_of(2, 3, 7, 9)));
    assert_eq!(mapper.translate_page(page_of(2, 3, 7, 0)), Some(Frame { number: 1024 }));
    assert_eq!(mapper.translate_page(page_of(2, 3, 7, 9)), Some(Frame { number: 1033 }));
    // And a slot of the third-level table: a 1 GiB page that starts at
    // frame 512 * 512.
    mapper.map_to(
        page_of(511, 511, 2, 8),
        Frame { number: 512 * 512 },
        flags(WRITABLE | HUGE_PAGE),
        &mut pool,
    );
    assert!(mapper.huge_pages_aligned(page_of(2, 8, 1, 2)));
    assert_eq!(
        mapper.translate_page(page_of(2, 8, 1, 2)),
        Some(Frame { number: 512 * 512 + 512 + 2 })
    );
    // The ordinary page beside them is still there.
    assert_eq!(mapper.translate_page(page_of(2, 3, 4, 5)), Some(Frame { number: 300 }));
    // Nothing can be mapped below a huge page, and a huge page cannot be unmapped.
    assert_eq!(mapper.tables_to_create(page_of(2, 3, 7, 9)), None);
    assert_eq!(mapper.tables_to_create(page_of(2, 8, 1, 2)), None);
    assert!(!mapper.can_unmap(page_of(2, 3, 7, 9)));
}

#[test]
fn misaligned_huge_pages_are_found() {
    let (mut mapper, mut pool) = fresh();
    mapper.map_to(page_of(2, 3, 4, 5), Frame { number: 300 }, flags(WRITABLE), &mut pool);
    // A 1 GiB page whose first frame is no multiple of 512 * 512.
    mapper.map_to(
        page_of(511, 511, 2, 8),
        Frame { number: 512 * 512 + 512 },
        flags(PRESENT | HUGE_PAGE),
        &mut pool,
    );
    assert!(!mapper.huge_pages_aligned(page_of(2, 8, 0, 0)));
    assert!(!mapper.huge_pages_aligned(page_of(2, 8, 1, 2)));
    // A 2 MiB page whose first frame is no multiple of 512.
    mapper.map_to(
        page_of(511, 2, 3, 7),
        Frame { number: 1025 },
        flags(PRESENT | HUGE_PAGE),
        &mut pool,
    );
    assert!(!mapper.huge_pages_aligned(page_of(2, 3, 7, 0)));
    // Pages that do not pass a huge page are not concerned.
    assert!(mapper.huge_pages_aligned(page_of(2, 3, 4, 5)));
    assert!(mapper.huge_pages_aligned(page_of(2, 3, 4, 6)));
    assert!(mapper.huge_pages_aligned(page_of(7, 7, 7, 7)));
    assert_eq!(mapper.translate_page(page_of(2, 3, 4, 5)), Some(Frame { number: 300 }));
}
