use veos::kernel_map::{
    initramfs_start, map_initramfs, map_section, map_stack, remap_kernel, KernelLayout, PageMapping, DATA_FLAGS,
    FINAL_STACK_TOP, INITRAMFS_MAP_AREA_START, RODATA_FLAGS, TEXT_FLAGS,
};
use veos::config::config_lines;
use veos::elf::check_initramfs_file;
use veos::initramfs::open_checkable;
use veos::mkinitramfs::{build_image, InitramfsFile};
use veos::address_space::{zero_chunks, AddressSpace, Segment, SegmentType};
use veos::cpu::{efer_value, star_value};
use veos::cpu_local::{CPULocal, CPULocalMut};
use veos::free_list::{FrameAllocator, FreeList};
use veos::memory::{MemoryArea, PageFlags, PhysicalAddress, VirtualAddress, READABLE, USER_ACCESSIBLE, WRITABLE};
use veos::paging::PageFrame;
use veos::stack::{AccessType, Stack};
use veos::sync::PreemptionState;
use veos::time::{Duration, Timestamp};

#[test]
fn deallocating_allocated_frame_restores_free_frames() {
    let mut list = FreeList::new();
    list.insert(MemoryArea::new(PhysicalAddress(0x20000), 0x3000));
    list.insert(MemoryArea::new(PhysicalAddress(0x40000), 0x1000));
    let mut allocator = FrameAllocator::new(list);
    let before: Vec<(u64, u64)> = allocator.list.entries.iter().map(|e| (e.start, e.length)).collect();
    let count = allocator.get_free_frame_num();
    let frame = allocator.allocate();
    allocator.deallocate(PageFrame::from_address(frame.get_address()));
    let after: Vec<(u64, u64)> = allocator.list.entries.iter().map(|e| (e.start, e.length)).collect();
    assert_eq!(before, after);
    assert_eq!(allocator.get_free_frame_num(), count);
}

#[test]
fn shrinking_by_growth_restores_stack() {
    let (mut stack, _) = Stack::new(0x1000, 0x10000, VirtualAddress(0x80000), AccessType::KernelOnly);
    let bottom = stack.bottom_address;
    let mapped = stack.grow(0x3000);
    let unmapped = stack.shrink(0x3000);
    assert_eq!(stack.bottom_address, bottom);
    assert_eq!(mapped, unmapped);
}

#[test]
fn offset_then_subtract_gives_duration_back() {
    let now = Timestamp::from_duration(Duration::new(100, 250));
    let duration = Duration::new(3, 999_999_999);
    let later = now.offset(duration).unwrap();
    assert_eq!(later.checked_sub(now), Some(duration));
}

#[test]
fn zeroing_is_split_per_page() {
    let chunks = zero_chunks(MemoryArea::new(VirtualAddress(0x10000), 0x2100));
    assert_eq!(chunks, vec![(0x10000, 0x1000), (0x11000, 0x1000), (0x12000, 0x100)]);
    let exact = zero_chunks(MemoryArea::new(VirtualAddress(0x10000), 0x2000));
    assert_eq!(exact, vec![(0x10000, 0x1000), (0x11000, 0x1000)]);
}

#[test]
fn segment_pages_to_unmap() {
    let segment = Segment::new(
        MemoryArea::new(VirtualAddress(0x400000), 0x1001),
        PageFlags { bits: READABLE },
        SegmentType::FromFile,
    );
    let (pages, checked) = segment.unmap_pages();
    assert_eq!(pages.iter().map(|p| p.0).collect::<Vec<u64>>(), vec![0x400000, 0x401000]);
    assert!(checked);
}

#[test]
fn page_flags_come_from_segment() {
    let mut space = AddressSpace::new();
    let flags = PageFlags { bits: READABLE | WRITABLE | USER_ACCESSIBLE };
    assert!(space.add_segment(Segment::new(MemoryArea::new(VirtualAddress(0x1000), 0x2000), flags, SegmentType::MemoryOnly)));
    assert_eq!(space.page_flags(VirtualAddress(0x2000)).unwrap().bits, flags.bits);
    assert!(space.page_flags(VirtualAddress(0x8000)).is_none());
}

#[test]
fn cpu_local_values_by_cpu() {
    let local = CPULocal::new(vec![10, 20, 30]);
    assert_eq!(*local.get(1), 20);
    let mut local_mut = CPULocalMut::new(vec![1, 2]);
    local_mut.set(1, 5);
    assert_eq!(*local_mut.get(1), 5);
    assert_eq!(*local_mut.get(0), 1);
}

#[test]
fn preemption_state_restores_saved_value() {
    let state = PreemptionState::new(true);
    assert!(state.restore());
    assert!(!PreemptionState::default().restore());
    assert_eq!(state.copy(), state);
}

#[test]
fn model_specific_register_values() {
    assert_eq!(efer_value(0x500), 0xd01);
    assert_eq!(star_value(0x1b, 0x08), (0x1b << 48) | (0x08 << 32));
}

#[test]
fn config_lines_split_and_trim() {
    let content = b"/bin/init\r\n/etc/motd/\n\nlast";
    let lines = config_lines(content);
    assert_eq!(lines.len(), 4);
    assert_eq!(&content[lines[0].start..lines[0].end], b"/bin/init");
    assert_eq!(&content[lines[0].path_start..lines[0].path_end], b"bin/init");
    assert_eq!(&content[lines[1].start..lines[1].end], b"/etc/motd/");
    assert_eq!(&content[lines[1].path_start..lines[1].path_end], b"etc/motd");
    assert_eq!(lines[2].start, lines[2].end);
    assert_eq!(&content[lines[3].start..lines[3].end], b"last");
    assert_eq!(config_lines(b"a\n").len(), 1);
    assert_eq!(config_lines(b"").len(), 0);
}

#[test]
fn initramfs_checks_accept_well_formed_images() {
    let image = build_image(&vec![InitramfsFile { name: b"init".to_vec(), content: vec![1, 2, 3] }]);
    assert!(open_checkable(&image, "init"));
    // A file that is no ELF file can be looked at without going wrong.
    assert!(check_initramfs_file(&image, "init"));
    let mut broken = image.clone();
    // A file count whose metadata size overflows.
    for b in &mut broken[8..16] {
        *b = 0xff;
    }
    assert!(!open_checkable(&broken, "init"));
    assert!(!check_initramfs_file(&broken, "init"));
}

#[test]
fn kernel_mappings() {
    let text = map_section(0x2800, 0x100000, TEXT_FLAGS);
    assert_eq!(text.len(), 2);
    assert_eq!(text[1], PageMapping { page: 0xffff800000101000, frame: 0x101000, flags: 0x101 });
    let stack = map_stack(0x200000, 0x204000);
    assert_eq!(stack.len(), 4);
    assert_eq!(stack[0].page, FINAL_STACK_TOP - 0x4000);
    assert_eq!(stack[3].frame, 0x203000);
    assert_eq!(stack[3].flags, 0x8000_0000_0000_0103);
    let initramfs = map_initramfs(0x300000, 0x1001);
    assert_eq!(initramfs.len(), 2);
    assert_eq!(
        initramfs[1],
        PageMapping { page: INITRAMFS_MAP_AREA_START + 0x1000, frame: 0x301000, flags: 0x8000_0000_0000_0001 }
    );
    assert_eq!(map_initramfs(0x300000, 0).len(), 0);
    assert_eq!(initramfs_start(0x300123), INITRAMFS_MAP_AREA_START + 0x123);
}

#[test]
fn remap_kernel_gives_each_section_its_flags() {
    let layout = KernelLayout {
        text_start: 0x100000,
        rodata_start: 0x102000,
        data_start: 0x103000,
        bss_start: 0x104000,
        bss_end: 0x106000,
        stack_bottom: 0x200000,
        stack_top: 0x202000,
        l4_table: 0x110000,
        l3_table: 0x111000,
        l2_table: 0x112000,
        stack_l2_table: 0x113000,
        stack_l1_table: 0x114000,
    };
    let (mappings, freed) = remap_kernel(layout);
    assert_eq!(freed, vec![0x110000, 0x111000, 0x112000, 0x113000, 0x114000]);
    // two text pages, one rodata, one data, two bss, the VGA buffer, two stack pages
    assert_eq!(mappings.len(), 9);
    let flags: Vec<u64> = mappings.iter().map(|m| m.flags).collect();
    let present = 1;
    assert_eq!(
        flags,
        vec![
            TEXT_FLAGS | present,
            TEXT_FLAGS | present,
            RODATA_FLAGS | present,
            DATA_FLAGS | present,
            DATA_FLAGS | present,
            DATA_FLAGS | present,
            DATA_FLAGS | present,
            DATA_FLAGS | present,
            DATA_FLAGS | present,
        ]
    );
    // text is executable and read-only; nothing else is executable
    assert_eq!(mappings[0].flags & 0x8000_0000_0000_0002, 0);
    assert_eq!(mappings[2].flags & 2, 0);
    assert_ne!(mappings[3].flags & 2, 0);
    assert_eq!(mappings[6], PageMapping { page: 0xffff8000000b8000, frame: 0xb8000, flags: DATA_FLAGS | present });
    assert_eq!(mappings[7].page, FINAL_STACK_TOP - 0x2000);
    assert_eq!(mappings[8].frame, 0x201000);
    assert_eq!(mappings[5].page, 0xffff800000105000);
}
