use veos::address_space::{AddressSpace, Segment, SegmentType};
use veos::free_list::{FrameAllocator, FreeList, FreeListIterator};
use veos::linked_list_allocator::{align, LinkedListAllocator};
use veos::memory::{
    is_userspace_address, MemoryArea, PageFlags, PhysicalAddress, VirtualAddress, PAGE_SIZE, READABLE,
    USER_ACCESSIBLE, WRITABLE,
};
use veos::paging::{
    chunk_bytes, convert_flags, get_page_flags, write_chunks, Page, PageFrame, PageTableEntryFlags, ENTRY_NO_EXECUTE,
    ENTRY_PRESENT, ENTRY_USER_ACCESSIBLE, ENTRY_WRITABLE,
};

fn area(start: u64, length: u64) -> MemoryArea<PhysicalAddress> {
    MemoryArea::new(PhysicalAddress(start), length)
}

#[test]
fn free_list_insert_merges_neighbours() {
    let mut list = FreeList::new();
    list.insert(area(0x1000, 0x1000));
    list.insert(area(0x3000, 0x1000));
    assert_eq!(list.len(), 2);
    // The area in between touches both entries and joins them.
    list.insert(area(0x2000, 0x1000));
    assert_eq!(list.len(), 1);
    assert_eq!(list.entries[0].start, 0x1000);
    assert_eq!(list.entries[0].length, 0x3000);
}

#[test]
fn free_list_insert_keeps_order() {
    let mut list = FreeList::new();
    list.insert(area(0x5000, 0x1000));
    list.insert(area(0x1000, 0x1000));
    list.insert(area(0x9000, 0x2000));
    assert_eq!(list.len(), 3);
    assert_eq!(list.entries[0].start, 0x1000);
    assert_eq!(list.entries[1].start, 0x5000);
    assert_eq!(list.entries[2].start, 0x9000);
    assert_eq!(list.entries[2].length, 0x2000);
}

#[test]
fn free_list_remove_first_entry() {
    let mut list = FreeList::new();
    list.insert(area(0x1000, 0x1000));
    list.insert(area(0x5000, 0x1000));
    list.remove(area(0x1000, 0x1000));
    assert_eq!(list.len(), 1);
    assert_eq!(list.entries[0].start, 0x5000);
}

#[test]
fn free_list_insert_with_unaligned_entries() {
    let mut list = FreeList::new();
    list.insert(area(0x1800, 0x1000));
    list.insert(area(0x4800, 0x2000));
    // before the first entry, between the two, and merging with the first
    list.insert(area(0x0, 0x1000));
    list.insert(area(0x3000, 0x1000));
    list.insert(area(0x2800, 0x0));
    let entries: Vec<(u64, u64)> = list.entries.iter().map(|e| (e.start, e.length)).collect();
    assert_eq!(entries, vec![(0x0, 0x1000), (0x1800, 0x1000), (0x3000, 0x1000), (0x4800, 0x2000)]);
    for pair in entries.windows(2) {
        assert!(pair[0].0 + pair[0].1 < pair[1].0);
    }
}

#[test]
fn free_list_remove_needs_matching_length() {
    let mut list = FreeList::new();
    list.insert(area(0x1000, 0x2000));
    // No entry is exactly this area: nothing is removed.
    list.remove(area(0x1000, 0x1000));
    assert_eq!(list.len(), 1);
    assert_eq!(list.entries[0].length, 0x2000);
    list.remove(area(0x7000, 0x1000));
    assert_eq!(list.len(), 1);
}

#[test]
fn free_list_remove_later_entry() {
    let mut list = FreeList::new();
    list.insert(area(0x1000, 0x1000));
    list.insert(area(0x5000, 0x1000));
    list.insert(area(0x9000, 0x3000));
    list.remove(area(0x5000, 0x1000));
    assert_eq!(list.len(), 2);
    assert_eq!(list.entries[0].start, 0x1000);
    assert_eq!(list.entries[1].start, 0x9000);
    list.remove(area(0x9000, 0x3000));
    assert_eq!(list.len(), 1);
}

#[test]
fn free_list_iterator_walks_entries() {
    let mut list = FreeList::new();
    list.insert(area(0x1000, 0x1000));
    list.insert(area(0x5000, 0x2000));
    let mut iterator = FreeListIterator::new(list);
    let first = iterator.next().unwrap();
    assert_eq!(first.start_address.0, 0x1000);
    assert_eq!(first.length, 0x1000);
    let second = iterator.next().unwrap();
    assert_eq!(second.start_address.0, 0x5000);
    assert_eq!(second.length, 0x2000);
    assert!(iterator.next().is_none());
    let list = iterator.finish();
    assert_eq!(list.len(), 2);
}

#[test]
fn frame_allocator_allocates_and_returns_frames() {
    let mut list = FreeList::new();
    list.insert(area(0x10000, 0x2000));
    let mut allocator = FrameAllocator::new(list);
    assert_eq!(allocator.get_free_frame_num(), 2);
    assert_eq!(allocator.get_free_memory_size(), 2 * PAGE_SIZE);
    let first = allocator.allocate();
    assert_eq!(first.get_address().0, 0x10000);
    assert_eq!(allocator.get_free_frame_num(), 1);
    let second = allocator.allocate();
    assert_eq!(second.get_address().0, 0x11000);
    assert!(!allocator.has_free_frame());
    assert_eq!(allocator.get_free_frame_num(), 0);
    allocator.deallocate(PageFrame::from_address(PhysicalAddress(0x10000)));
    assert_eq!(allocator.get_free_frame_num(), 1);
    let again = allocator.allocate();
    assert_eq!(again.get_address().0, 0x10000);
}

#[test]
fn page_from_address_rounds_down() {
    assert_eq!(Page::from_address(VirtualAddress(0x1234)).get_address().0, 0x1000);
    assert_eq!(PageFrame::from_address(PhysicalAddress(0x5fff)).get_address().0, 0x5000);
    assert_eq!(Page::from_address(VirtualAddress(0x3000)).0, 0x3000);
}

#[test]
fn convert_flags_sets_entry_bits() {
    let flags = convert_flags(PageFlags { bits: READABLE | WRITABLE | USER_ACCESSIBLE });
    assert_eq!(flags.bits, ENTRY_PRESENT | ENTRY_WRITABLE | ENTRY_NO_EXECUTE | ENTRY_USER_ACCESSIBLE);
    let read_only = convert_flags(PageFlags { bits: READABLE });
    assert_eq!(read_only.bits, ENTRY_PRESENT | ENTRY_NO_EXECUTE);
}

#[test]
fn get_page_flags_reads_entry_bits() {
    let entry = PageTableEntryFlags { bits: ENTRY_PRESENT | ENTRY_WRITABLE };
    let flags = get_page_flags(Some(entry));
    // present, writable and, without the no-execute bit, executable
    assert_eq!(flags.bits, 32 | 2 | 4);
    assert_eq!(get_page_flags(None).bits, 0);
}

#[test]
fn get_page_flags_of_absent_entry_is_empty() {
    assert_eq!(get_page_flags(Some(PageTableEntryFlags { bits: 0 })).bits, 0);
    // Without the present bit the other bits say nothing.
    let stale = PageTableEntryFlags { bits: ENTRY_WRITABLE | ENTRY_USER_ACCESSIBLE };
    assert_eq!(get_page_flags(Some(stale)).bits, 0);
}

#[test]
fn write_chunks_split_at_page_borders() {
    let chunks = write_chunks(VirtualAddress(0x1ff0), 0x30);
    assert_eq!(chunks.len(), 2);
    assert_eq!(chunks[0].page_address, 0x1000);
    assert_eq!(chunks[0].offset, 0xff0);
    assert_eq!(chunks[0].length, 0x10);
    assert_eq!(chunks[1].page_address, 0x2000);
    assert_eq!(chunks[1].offset, 0);
    assert_eq!(chunks[1].length, 0x20);
    // Each part takes the buffer from where the part before it stopped.
    assert_eq!(chunks[0].buffer_position, 0);
    assert_eq!(chunks[1].buffer_position, 0x10);
}

#[test]
fn write_chunks_buffer_positions_follow_addresses() {
    let chunks = write_chunks(VirtualAddress(0x1800), 0x2000);
    assert_eq!(chunks.len(), 3);
    for chunk in chunks.iter() {
        assert_eq!(chunk.page_address + chunk.offset, 0x1800 + chunk.buffer_position);
    }
    assert_eq!(chunks[1].buffer_position, 0x800);
    assert_eq!(chunks[2].buffer_position, 0x1800);
    assert_eq!(chunks[2].length, 0x800);
}

#[test]
fn chunk_bytes_take_the_part_of_the_buffer() {
    let buffer: Vec<u8> = (0..0x30u32).map(|i| i as u8).collect();
    let chunks = write_chunks(VirtualAddress(0x1ff0), 0x30);
    assert_eq!(chunk_bytes(&buffer, chunks[0]), &buffer[0..0x10]);
    let second = chunk_bytes(&buffer, chunks[1]);
    assert_eq!(second.len(), 0x20);
    // the first byte on the second page is byte 0x10 of the buffer
    assert_eq!(second[0], 0x10);
}

#[test]
fn write_chunks_cover_whole_pages() {
    let chunks = write_chunks(VirtualAddress(0x4000), 0x2000);
    assert_eq!(chunks.len(), 2);
    let total: u64 = chunks.iter().map(|c| c.length).sum();
    assert_eq!(total, 0x2000);
    assert_eq!(chunks[0].page_address + chunks[0].offset + chunks[0].length, chunks[1].page_address);
}

#[test]
fn align_rounds_up_to_alignment() {
    assert_eq!(align(VirtualAddress(0x1001), 0x10).0, 0x1010);
    assert_eq!(align(VirtualAddress(0x1000), 0x1000).0, 0x1000);
}

#[test]
fn allocator_allocates_aligned_blocks_and_frees_them() {
    let mut allocator = LinkedListAllocator::new(VirtualAddress(0x100000), VirtualAddress(0x200000));
    let first = allocator.allocate_first_fit(100, 16);
    assert_ne!(first, 0);
    assert_eq!(first % 16, 0);
    let second = allocator.allocate_first_fit(200, 64);
    assert_ne!(second, 0);
    assert_eq!(second % 64, 0);
    assert!(second >= first + 100);
    allocator.free(first, 100, 16);
    // The freed block is the first that fits again.
    let third = allocator.allocate_first_fit(100, 16);
    assert_eq!(third, first);
}

#[test]
fn allocator_free_restores_fresh_heap() {
    let mut allocator = LinkedListAllocator::new(VirtualAddress(0x100000), VirtualAddress(0x200000));
    // big enough to map more pages
    let first = allocator.allocate_first_fit(0x2500, 32);
    assert_ne!(first, 0);
    assert!(allocator.end_address > 0x101000);
    allocator.free(first, 0x2500, 32);
    assert_eq!(allocator.nodes.len(), 1);
    assert_eq!(allocator.nodes[0].address, 0x100000);
    assert!(!allocator.nodes[0].used);
    assert_eq!(allocator.nodes[0].next_node, None);
    assert_eq!(allocator.end_address, 0x101000);
    assert_eq!(allocator.allocate_first_fit(0x2500, 32), first);
}

#[test]
fn allocator_reports_no_space() {
    let mut allocator = LinkedListAllocator::new(VirtualAddress(0x100000), VirtualAddress(0x101000));
    assert_eq!(allocator.allocate_first_fit(0x100000, 8), 0);
}

#[test]
fn userspace_addresses_lie_in_lower_half() {
    assert!(is_userspace_address(VirtualAddress(0x1000)));
    assert!(is_userspace_address(VirtualAddress(0x00007fffffffffff)));
    assert!(!is_userspace_address(VirtualAddress(0xffff800000000000)));
}

#[test]
fn memory_area_overlaps_and_contains() {
    let a = MemoryArea::new(VirtualAddress(0x1000), 0x1000);
    let b = MemoryArea::new(VirtualAddress(0x1800), 0x1000);
    let c = MemoryArea::new(VirtualAddress(0x2000), 0x10);
    assert!(a.overlaps_with(b));
    assert!(!a.overlaps_with(c));
    assert!(a.contains(VirtualAddress(0x1fff)));
    assert!(!a.contains(VirtualAddress(0x2000)));
    assert!(MemoryArea::new(VirtualAddress(0x1100), 0x10).is_contained_in(a));
    assert_eq!(a.end_address().0, 0x2000);
    let d = MemoryArea::from_start_and_end(VirtualAddress(0x3000), VirtualAddress(0x1000));
    assert_eq!(d.start_address().0, 0x3000);
    assert_eq!(d.length(), 0x2000);
}

#[test]
fn address_space_refuses_overlapping_segments() {
    let mut space = AddressSpace::new();
    let flags = PageFlags { bits: READABLE | USER_ACCESSIBLE };
    let first = Segment::new(MemoryArea::new(VirtualAddress(0x400000), 0x2000), flags, SegmentType::FromFile);
    let overlapping = Segment::new(MemoryArea::new(VirtualAddress(0x401000), 0x2000), flags, SegmentType::FromFile);
    let separate = Segment::new(MemoryArea::new(VirtualAddress(0x402000), 0x1000), flags, SegmentType::MemoryOnly);
    assert!(space.add_segment(first));
    assert!(!space.add_segment(overlapping));
    assert!(space.add_segment(separate));
    assert_eq!(space.segments.len(), 2);
    assert!(space.contains_area(MemoryArea::new(VirtualAddress(0x400100), 0x100)));
    assert!(!space.contains_area(MemoryArea::new(VirtualAddress(0x401f00), 0x200)));
    assert_eq!(space.get_segment(MemoryArea::new(VirtualAddress(0x402000), 0x10)), Some(1));
    assert_eq!(space.segment_flags(MemoryArea::new(VirtualAddress(0x402000), 0x10)).unwrap().bits, flags.bits);
}

#[test]
fn address_space_refuses_user_segment_in_kernel_half() {
    let mut space = AddressSpace::new();
    let flags = PageFlags { bits: READABLE | USER_ACCESSIBLE };
    let kernel = Segment::new(MemoryArea::new(VirtualAddress(0xffff800000000000), 0x1000), flags, SegmentType::FromFile);
    assert!(!space.add_segment(kernel));
    let kernel_only = Segment::new(
        MemoryArea::new(VirtualAddress(0xffff800000000000), 0x1000),
        PageFlags { bits: READABLE },
        SegmentType::MemoryOnly,
    );
    assert!(space.add_segment(kernel_only));
}
