use veos::address_space::{AddressSpace, Segment, SegmentType};
use veos::free_list::{FrameAllocator, FreeList};
use veos::memory::{MemoryArea, PageFlags, PhysicalAddress, VirtualAddress, PAGE_SIZE, READABLE, USER_ACCESSIBLE, WRITABLE};
use veos::page_table::{map_page, map_page_at, unmap_page, AddressSpaceManager, PageTable, PageTableEntry, PhysicalMemory};
use veos::paging::{
    convert_flags, Page, PageFrame, PageTableEntryFlags, ENTRY_NO_EXECUTE, ENTRY_PRESENT, ENTRY_WRITABLE,
};

fn allocator(start: u64, frames: u64) -> FrameAllocator {
    let mut list = FreeList::new();
    list.insert(MemoryArea::new(PhysicalAddress(start), frames * PAGE_SIZE));
    FrameAllocator::new(list)
}

/// Reads the byte at the virtual address through the table.
fn read(table: &PageTable, memory: &PhysicalMemory, address: u64) -> Option<u8> {
    table.translate_address(VirtualAddress(address)).and_then(|physical| memory.read(physical))
}

#[test]
fn map_page_at_then_translate() {
    let mut table = PageTable::new();
    assert_eq!(table.translate_address(VirtualAddress(0x5123)), None);
    table.map_page_at(Page(0x5000), PageFrame(0x9000), PageTableEntryFlags { bits: ENTRY_WRITABLE });
    assert_eq!(table.translate_address(VirtualAddress(0x5123)), Some(PhysicalAddress(0x9123)));
    assert_eq!(table.translate_address(VirtualAddress(0x6000)), None);
    let entry = table.get_entry(Page(0x5000)).unwrap();
    assert_eq!(entry, PageTableEntry { frame: 0x9000, flags: ENTRY_WRITABLE | ENTRY_PRESENT });
}

#[test]
fn unmap_page_returns_frame() {
    let mut table = PageTable::new();
    table.map_page_at(Page(0x5000), PageFrame(0x9000), PageTableEntryFlags { bits: 0 });
    let frame = table.unmap_page(Page(0x5000));
    assert_eq!(frame.0, 0x9000);
    assert_eq!(table.get_entry(Page(0x5000)), None);
    assert_eq!(table.translate_address(VirtualAddress(0x5000)), None);
}

#[test]
fn change_permissions_keeps_frame_or_maps() {
    let mut frames = allocator(0x100000, 2);
    let mut table = PageTable::new();
    table.map_page_at(Page(0x5000), PageFrame(0x9000), PageTableEntryFlags { bits: 0 });
    table.change_permissions_or_map(Page(0x5000), PageTableEntryFlags { bits: ENTRY_WRITABLE }, &mut frames);
    assert_eq!(table.get_entry(Page(0x5000)).unwrap().frame, 0x9000);
    assert_eq!(frames.get_free_frame_num(), 2);
    table.change_permissions_or_map(Page(0x7000), PageTableEntryFlags { bits: ENTRY_WRITABLE }, &mut frames);
    assert_eq!(table.get_entry(Page(0x7000)).unwrap().frame, 0x100000);
    assert_eq!(frames.get_free_frame_num(), 1);
}

#[test]
fn write_to_places_every_byte() {
    let mut frames = allocator(0x100000, 8);
    let mut memory = PhysicalMemory::new();
    let mut manager = AddressSpaceManager::new();
    let buffer: Vec<u8> = (0..0x1800u32).map(|i| (i % 251) as u8).collect();
    let address = VirtualAddress(0x400f00);
    assert_eq!(manager.frames_needed(address, buffer.len() as u64), 3);
    let flags = PageFlags { bits: READABLE };
    manager.write_to(&buffer, address, flags, &mut memory, &mut frames);
    for (i, byte) in buffer.iter().enumerate() {
        assert_eq!(read(&manager.table, &memory, 0x400f00 + i as u64), Some(*byte));
    }
    // the touched pages end up read-only and not executable
    for page in [0x400000u64, 0x401000, 0x402000] {
        let entry = manager.table.get_entry(Page(page)).unwrap();
        assert_eq!(entry.flags, ENTRY_PRESENT | ENTRY_NO_EXECUTE);
        assert_eq!(entry.flags, convert_flags(flags).bits);
    }
    assert_eq!(frames.get_free_frame_num(), 5);
    assert_eq!(manager.frames_needed(address, buffer.len() as u64), 0);
}

#[test]
fn write_to_keeps_mapped_frames() {
    let mut frames = allocator(0x100000, 4);
    let mut memory = PhysicalMemory::new();
    let mut manager = AddressSpaceManager::new();
    manager.map_page(VirtualAddress(0x401000), PageFlags { bits: READABLE }, &mut frames);
    let frame = manager.table.get_entry(Page(0x401000)).unwrap().frame;
    assert_eq!(manager.frames_needed(VirtualAddress(0x400ffe), 4), 1);
    manager.write_to(b"abcd", VirtualAddress(0x400ffe), PageFlags { bits: READABLE | WRITABLE }, &mut memory, &mut frames);
    assert_eq!(manager.table.get_entry(Page(0x401000)).unwrap().frame, frame);
    assert_eq!(memory.read(PhysicalAddress(frame)), Some(b'c'));
    assert_eq!(memory.read(PhysicalAddress(frame + 1)), Some(b'd'));
    assert_eq!(read(&manager.table, &memory, 0x400ffe), Some(b'a'));
    // a page the write did not touch is not mapped
    assert_eq!(manager.table.get_entry(Page(0x402000)), None);
    let unmapped = manager.unmap_page(VirtualAddress(0x401234));
    assert_eq!(unmapped.0, frame);
}

#[test]
fn address_space_write_to_uses_segment_flags() {
    let mut space = AddressSpace::new();
    let flags = PageFlags { bits: READABLE | WRITABLE | USER_ACCESSIBLE };
    assert!(space.add_segment(Segment::new(
        MemoryArea::new(VirtualAddress(0x600000), 0x3000),
        flags,
        SegmentType::MemoryOnly,
    )));
    let mut frames = allocator(0x200000, 4);
    let mut memory = PhysicalMemory::new();
    let mut manager = AddressSpaceManager::new();
    space.write_to(&mut manager, b"hello", VirtualAddress(0x600ffd), &mut memory, &mut frames);
    for (i, byte) in b"hello".iter().enumerate() {
        assert_eq!(read(&manager.table, &memory, 0x600ffd + i as u64), Some(*byte));
    }
    assert_eq!(manager.table.get_entry(Page(0x600000)).unwrap().flags, convert_flags(flags).bits);
    assert_eq!(manager.table.get_entry(Page(0x601000)).unwrap().flags, convert_flags(flags).bits);
    space.map_page(&mut manager, VirtualAddress(0x602000), &mut frames);
    assert_eq!(manager.table.get_entry(Page(0x602000)).unwrap().flags, convert_flags(flags).bits);
    assert_eq!(frames.get_free_frame_num(), 1);
    let frame = space.unmap_page(&mut manager, VirtualAddress(0x602000));
    assert_eq!(manager.table.get_entry(Page(0x602000)), None);
    assert_eq!(frame.0 % PAGE_SIZE, 0);
}

#[test]
fn free_map_and_unmap_functions() {
    let mut table = PageTable::new();
    map_page_at(
        &mut table,
        VirtualAddress(0x7123),
        PhysicalAddress(0xa456),
        PageFlags { bits: READABLE | WRITABLE },
    );
    assert_eq!(
        table.get_entry(Page(0x7000)),
        Some(PageTableEntry { frame: 0xa000, flags: ENTRY_PRESENT | ENTRY_WRITABLE | ENTRY_NO_EXECUTE })
    );
    let mut frames = allocator(0x300000, 1);
    map_page(&mut table, VirtualAddress(0x8000), PageFlags { bits: READABLE }, &mut frames);
    assert_eq!(table.translate_address(VirtualAddress(0x8010)), Some(PhysicalAddress(0x300010)));
    assert!(!frames.has_free_frame());
    let frame = unmap_page(&mut table, VirtualAddress(0x8fff));
    assert_eq!(frame.0, 0x300000);
}
