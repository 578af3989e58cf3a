use kernel_memory::address::{
    Frame, Page, ENTRY_COUNT, KERNEL_OFFSET, PAGE_SIZE, PML4_SIZE, RECURSIVE_PAGE_OFFSET,
    VGA_BUFFER,
};

#[test]
fn layout_constants() {
    assert_eq!(PAGE_SIZE, 4096);
    assert_eq!(ENTRY_COUNT, 512);
    assert_eq!(PML4_SIZE, 512 * 512 * 512 * 4096);
    assert_eq!(RECURSIVE_PAGE_OFFSET, 0u64.wrapping_sub(PML4_SIZE));
    assert_eq!(KERNEL_OFFSET, RECURSIVE_PAGE_OFFSET - PML4_SIZE);
    assert_eq!(VGA_BUFFER, 0xb8000);
}

#[test]
fn frame_containing_address_rounds_down() {
    assert_eq!(Frame::containing_address(0).number, 0);
    assert_eq!(Frame::containing_address(0xfff).number, 0);
    assert_eq!(Frame::containing_address(0x1000).number, 1);
    assert_eq!(Frame::containing_address(0x1234).number, 1);
    assert_eq!(Frame::containing_address(u64::MAX).number, 0x000f_ffff_ffff_ffff);
}

#[test]
fn frame_start_address_is_number_times_page_size() {
    assert_eq!(Frame { number: 0 }.start_address(), 0);
    assert_eq!(Frame { number: 3 }.start_address(), 0x3000);
    assert_eq!(Frame { number: 0x000f_ffff_ffff_ffff }.start_address(), 0xffff_ffff_ffff_f000);
}

#[test]
fn frame_contains_the_address_it_was_made_from() {
    for address in [0u64, 1, 0xfff, 0x1000, 0x1001, 0xb8000, 0x10_0123, 0xffff_ffff_ffff_ffff] {
        let start = Frame::containing_address(address).start_address();
        assert!(start <= address);
        assert!(address - start < PAGE_SIZE);
    }
}

#[test]
fn frame_clone_is_equal() {
    let frame = Frame { number: 42 };
    assert_eq!(frame.clone(), frame);
}

#[test]
fn frames_are_ordered_by_number() {
    assert!(Frame { number: 1 } < Frame { number: 2 });
    assert!(Frame { number: 2 } >= Frame { number: 2 });
    assert_ne!(Frame { number: 1 }, Frame { number: 2 });
}

#[test]
fn frame_range_walks_every_frame_once() {
    let mut iter = Frame::range_inclusive(Frame { number: 3 }, Frame { number: 5 });
    assert_eq!(iter.next(), Some(Frame { number: 3 }));
    assert_eq!(iter.next(), Some(Frame { number: 4 }));
    assert_eq!(iter.next(), Some(Frame { number: 5 }));
    assert_eq!(iter.next(), None);
    assert_eq!(iter.next(), None);
}

#[test]
fn frame_range_of_one_and_of_none() {
    let mut one = Frame::range_inclusive(Frame { number: 7 }, Frame { number: 7 });
    assert_eq!(one.next(), Some(Frame { number: 7 }));
    assert_eq!(one.next(), None);
    let mut none = Frame::range_inclusive(Frame { number: 8 }, Frame { number: 7 });
    assert_eq!(none.next(), None);
}

#[test]
fn page_containing_address_low_half() {
    let page = Page::containing_address(0x0000_7fff_ffff_ffff);
    assert_eq!(page.start_address(), 0x0000_7fff_ffff_f000);
    assert_eq!(page.p4_index(), 255);
    assert_eq!(page.p3_index(), 511);
    assert_eq!(page.p2_index(), 511);
    assert_eq!(page.p1_index(), 511);
}

#[test]
fn page_containing_address_high_half() {
    let page = Page::containing_address(0xffff_8000_0000_0000);
    assert_eq!(page.start_address(), 0xffff_8000_0000_0000);
    assert_eq!(page.p4_index(), 256);
    assert_eq!(page.p3_index(), 0);
    assert_eq!(page.p2_index(), 0);
    assert_eq!(page.p1_index(), 0);
}

#[test]
fn page_indices_are_nine_bit_fields() {
    // 0o123_456_701_234 as the four indices, then the offset in the page.
    let address: u64 = (0o123 << 39) | (0o456 << 30) | (0o701 << 21) | (0o234 << 12) | 0xabc;
    let page = Page::containing_address(address);
    assert_eq!(page.p4_index(), 0o123);
    assert_eq!(page.p3_index(), 0o456);
    assert_eq!(page.p2_index(), 0o701);
    assert_eq!(page.p1_index(), 0o234);
    assert_eq!(page.start_address(), address - 0xabc);
}

#[test]
fn page_of_the_recursive_region() {
    let page = Page::containing_address(RECURSIVE_PAGE_OFFSET);
    assert_eq!(page.p4_index(), 511);
    assert_eq!(page.p3_index(), 0);
    let kernel = Page::containing_address(KERNEL_OFFSET);
    assert_eq!(kernel.p4_index(), 510);
}

#[test]
fn pages_are_equal_and_ordered_by_number() {
    let low = Page::containing_address(0x1000);
    let same = Page::containing_address(0x1fff);
    let high = Page::containing_address(0x2000);
    assert_eq!(low, same);
    assert!(low < high);
}

#[test]
fn page_range_walks_every_page_once() {
    let start = Page::containing_address(0x5000);
    let end = Page::containing_address(0x7fff);
    let mut iter = Page::range_inclusive(start, end);
    assert_eq!(iter.next(), Some(Page::containing_address(0x5000)));
    assert_eq!(iter.next(), Some(Page::containing_address(0x6000)));
    assert_eq!(iter.next(), Some(Page::containing_address(0x7000)));
    assert_eq!(iter.next(), None);
    assert_eq!(iter.next(), None);
}

#[test]
fn page_range_ends_at_the_last_page() {
    let last = Page::containing_address(0xffff_ffff_ffff_ffff);
    let mut iter = Page::range_inclusive(last, last);
    assert_eq!(iter.next(), Some(last));
    assert_eq!(iter.next(), None);
    let mut none = Page::range_inclusive(last, Page::containing_address(0));
    assert_eq!(none.next(), None);
}
