use kernel_memory::address::Frame;
use kernel_memory::allocator::FrameAllocator;
use kernel_memory::pmm::{FramePool, MemoryArea};

fn one_mebibyte_at_one_mebibyte() -> Vec<MemoryArea> {
    vec![MemoryArea { base: 0x10_0000, length: 0x10_0000, usable: true }]
}

fn drain(pool: &mut FramePool) -> Vec<u64> {
    let mut numbers = Vec::new();
    while let Some(frame) = pool.allocate_frame() {
        numbers.push(frame.number);
        assert!(numbers.len() <= 1_000_000);
    }
    numbers
}

#[test]
fn one_mebibyte_region_gives_256_frames() {
    let mut pool = FramePool::new(&one_mebibyte_at_one_mebibyte(), 0x10_0000);
    for _ in 0..256 {
        let frame = pool.allocate_frame().expect("a frame of the region");
        assert!(frame.number >= 0x100 && frame.number < 0x200);
    }
    assert_eq!(pool.allocate_frame(), None);
    assert_eq!(pool.allocate_frame(), None);
}

#[test]
fn frames_are_handed_out_once_each() {
    let mut pool = FramePool::new(&one_mebibyte_at_one_mebibyte(), 0);
    let mut numbers = drain(&mut pool);
    assert_eq!(numbers.len(), 256);
    numbers.sort();
    numbers.dedup();
    assert_eq!(numbers, (0x100..0x200).collect::<Vec<u64>>());
}

#[test]
fn empty_map_gives_no_frame() {
    let mut pool = FramePool::new(&Vec::new(), 0);
    assert_eq!(pool.allocate_frame(), None);
}

#[test]
fn areas_that_are_not_usable_give_no_frame() {
    let areas = vec![
        MemoryArea { base: 0, length: 0x10_0000, usable: false },
        MemoryArea { base: 0x10_0000, length: 0x3000, usable: true },
        MemoryArea { base: 0x20_0000, length: 0x10_0000, usable: false },
    ];
    let mut pool = FramePool::new(&areas, 0);
    assert_eq!(drain(&mut pool), vec![0x100, 0x101, 0x102]);
}

#[test]
fn only_whole_frames_of_an_area_are_used() {
    // From 0x1800 to 0x4800: the frames 2 and 3 lie wholly inside.
    let areas = vec![MemoryArea { base: 0x1800, length: 0x3000, usable: true }];
    let mut pool = FramePool::new(&areas, 0);
    assert_eq!(drain(&mut pool), vec![2, 3]);
    let small = vec![MemoryArea { base: 0x1001, length: 0x1ffe, usable: true }];
    let mut pool = FramePool::new(&small, 0);
    assert_eq!(drain(&mut pool), Vec::<u64>::new());
}

#[test]
fn frames_below_the_kernel_end_are_kept_back() {
    let areas = vec![MemoryArea { base: 0, length: 0x8000, usable: true }];
    let mut pool = FramePool::new(&areas, 0x5000);
    assert_eq!(drain(&mut pool), vec![5, 6, 7]);
    // A kernel that ends inside frame 5 keeps that frame, too.
    let mut pool = FramePool::new(&areas, 0x5001);
    assert_eq!(drain(&mut pool), vec![6, 7]);
    let mut pool = FramePool::new(&areas, 0x8000);
    assert_eq!(drain(&mut pool), Vec::<u64>::new());
}

#[test]
fn overlapping_areas_give_each_frame_once() {
    let areas = vec![
        MemoryArea { base: 0x2000, length: 0x3000, usable: true },
        MemoryArea { base: 0x1000, length: 0x2000, usable: true },
        MemoryArea { base: 0x3000, length: 0x1000, usable: true },
    ];
    let mut pool = FramePool::new(&areas, 0);
    assert_eq!(drain(&mut pool), vec![1, 2, 3, 4]);
}

#[test]
fn area_that_ends_beyond_the_address_space() {
    let areas = vec![MemoryArea { base: u64::MAX - 0xfff, length: u64::MAX, usable: true }];
    let mut pool = FramePool::new(&areas, 0);
    // No frame up there can be named in a table slot.
    assert_eq!(pool.allocate_frame(), None);
    let top = vec![MemoryArea { base: 0x000f_ffff_ffff_e000, length: u64::MAX, usable: true }];
    let mut pool = FramePool::new(&top, 0);
    assert_eq!(drain(&mut pool), vec![0xff_ffff_fffe, 0xff_ffff_ffff]);
}

#[test]
fn returned_frame_is_handed_out_again() {
    let areas = vec![MemoryArea { base: 0x1000, length: 0x2000, usable: true }];
    let mut pool = FramePool::new(&areas, 0);
    let first = pool.allocate_frame().unwrap();
    let second = pool.allocate_frame().unwrap();
    assert_eq!(pool.allocate_frame(), None);
    assert_ne!(first, second);
    pool.deallocate_frame(first.clone());
    assert_eq!(pool.allocate_frame(), Some(first));
    assert_eq!(pool.allocate_frame(), None);
    pool.deallocate_frame(second.clone());
    assert_eq!(pool.allocate_frame(), Some(second));
    assert_eq!(pool.allocate_frame(), None);
}

#[test]
fn frame_returned_twice_is_free_once() {
    let areas = vec![MemoryArea { base: 0x1000, length: 0x3000, usable: true }];
    let mut pool = FramePool::new(&areas, 0);
    let first = pool.allocate_frame().unwrap();
    pool.deallocate_frame(first.clone());
    pool.deallocate_frame(first.clone());
    // Frame 3 was never handed out: returning it changes nothing.
    pool.deallocate_frame(Frame { number: 3 });
    let mut numbers = drain(&mut pool);
    numbers.sort();
    assert_eq!(numbers, vec![1, 2, 3]);
}

#[test]
fn frame_from_elsewhere_joins_the_pool() {
    let mut pool = FramePool::new(&Vec::new(), 0);
    pool.deallocate_frame(Frame { number: 0xb8 });
    assert_eq!(pool.allocate_frame(), Some(Frame { number: 0xb8 }));
    assert_eq!(pool.allocate_frame(), None);
}

#[test]
fn allocations_then_returns_in_any_order_restore_the_pool() {
    let areas = vec![
        MemoryArea { base: 0x1000, length: 0x4000, usable: true },
        MemoryArea { base: 0x10_0000, length: 0x4000, usable: true },
    ];
    let mut reference = FramePool::new(&areas, 0);
    let mut expected = drain(&mut reference);
    expected.sort();

    let mut pool = FramePool::new(&areas, 0);
    let mut taken = Vec::new();
    for _ in 0..5 {
        taken.push(pool.allocate_frame().unwrap());
    }
    // Return them in another order than they came.
    for index in [3usize, 0, 4, 1, 2] {
        pool.deallocate_frame(taken[index].clone());
    }
    let mut after = drain(&mut pool);
    after.sort();
    assert_eq!(after, expected);
}
