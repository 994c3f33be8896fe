use veos::cpu::{cpu_supported, timer_millis};
use veos::lapic::{
    icr_halves, init, init_writes, issue_interrupt, issue_self_interrupt, lapic_mapping, set_icr, ALL, periodic_timer_count, ticks_per_ms, LVTRegister, RegisterWrite,
    LINT0_INTERRUPT, LOGICAL_DESTINATION_REGISTER, SELF, TIMER_INTERRUPT,
};
use veos::logger::{log_targets, LogLevel};
use veos::multiboot::{
    c_string_length, find_initramfs_module, get_bootloader_name, get_initramfs_area, read_c_string, get_vga_info, module_entry, FramebufferInfo,
    MemoryMapEntryVersion0Iterator, MemoryMapIterator,
};
use veos::serial::SerialPort;
use veos::stack::{AccessType, PageRange, Stack, StackChange};
use veos::address_space::{AddressSpace, Segment, SegmentType};
use veos::memory::{MemoryArea, PageFlags, READABLE};
use veos::scheduler::{ThreadState, TCB};
use veos::syscalls::{exec_name, sleep_wake_time, syscall_handler, syscall_step, Syscall, SyscallAction};
use veos::time::{Duration, Timestamp};
use veos::memory::VirtualAddress;
use veos::vga_buffer::{Color, ColorCode, Writer};

#[test]
fn color_code_packs_background_and_foreground() {
    assert_eq!(ColorCode::new(Color::LightGray, Color::Black).0, 0x07);
    assert_eq!(ColorCode::new(Color::White, Color::Blue).0, 0x1f);
}

#[test]
fn writer_writes_and_wraps() {
    let color = ColorCode::new(Color::LightGray, Color::Black);
    let mut writer = Writer::new(4, 3, color);
    writer.write_string("abcde");
    assert_eq!(writer.cells[0].character, b'a');
    assert_eq!(writer.cells[3].character, b'd');
    // The fifth character starts the next line.
    assert_eq!(writer.cells[4].character, b'e');
    assert_eq!(writer.row_position, 1);
    assert_eq!(writer.column_position, 1);
}

#[test]
fn writer_scrolls_at_bottom() {
    let color = ColorCode::new(Color::LightGray, Color::Black);
    let mut writer = Writer::new(2, 2, color);
    writer.write_char(b'a');
    writer.write_char(b'\n');
    writer.write_char(b'b');
    writer.write_char(b'\n');
    // The screen moved up by one line and the last line is blank.
    assert_eq!(writer.cells[0].character, b'b');
    assert_eq!(writer.cells[2].character, b' ');
    assert_eq!(writer.row_position, 1);
    assert_eq!(writer.column_position, 0);
    writer.clear_screen();
    assert!(writer.cells.iter().all(|c| c.character == b' '));
    assert_eq!(writer.row_position, 0);
}

#[test]
fn lvt_register_fields() {
    let mut register = LVTRegister::new();
    assert_eq!(register.0, 0);
    register.set_vector(0x30);
    register.set_inactive();
    assert_eq!(register.0, 0x10030);
    register.set_active();
    assert_eq!(register.0, 0x30);
}

#[test]
fn lapic_init_programs_registers() {
    let writes = init_writes(10);
    assert_eq!(writes.len(), 13);
    assert_eq!(writes[4], RegisterWrite { offset: LINT0_INTERRUPT, value: 0x8700 });
    assert_eq!(writes[6], RegisterWrite { offset: TIMER_INTERRUPT, value: 0x20030 });
    assert_eq!(writes[12], RegisterWrite { offset: LOGICAL_DESTINATION_REGISTER, value: 2 << 24 });
}

#[test]
fn lapic_init_maps_its_page_once() {
    let mut initialized = false;
    let (mapping, writes) = init(&mut initialized, 10);
    assert!(initialized);
    assert_eq!(mapping, lapic_mapping());
    assert_eq!(mapping.page, 0xffff8000fee00000);
    assert_eq!(mapping.frame, 0xfee00000);
    // present, writable, uncached, not executable
    assert_eq!(mapping.flags, 1 | 2 | 16 | 0x8000_0000_0000_0000);
    assert_eq!(writes, init_writes(10));
}

#[test]
fn lapic_arithmetic() {
    assert_eq!(
        issue_self_interrupt(0x20),
        vec![RegisterWrite { offset: 0x310, value: 0 }, RegisterWrite { offset: 0x300, value: 0x40020 }]
    );
    assert_eq!(
        set_icr(0x1234_5678_9abc_def0),
        vec![
            RegisterWrite { offset: 0x310, value: 0x1234_5678 },
            RegisterWrite { offset: 0x300, value: 0x9abc_def0 }
        ]
    );
    assert_eq!(issue_interrupt(ALL, 0x31)[1].value as u64, ALL | 0x31);
    assert_eq!(SELF, 1 << 18);
    assert_eq!(icr_halves(0x1234_5678_9abc_def0), (0x1234_5678, 0x9abc_def0));
    assert_eq!(periodic_timer_count(150, 1000), 150000);
    assert_eq!(ticks_per_ms(u32::MAX - 1250), 10);
}

#[test]
fn serial_port_init_sequence() {
    let port = SerialPort::new(0x3f8);
    let writes = port.init_writes();
    assert_eq!(writes.len(), 7);
    assert_eq!(writes[0].port, 0x3f9);
    assert_eq!(writes[0].value, 0);
    assert_eq!(writes[2].port, 0x3f8);
    assert_eq!(writes[2].value, 3);
    assert!(!port.transmission_ready(0));
    assert!(port.transmission_ready(0x20));
    assert!(port.transmission_ready(0x60));
    assert!(!port.transmission_ready(0xdf));
}

#[test]
fn stack_grows_and_shrinks_by_pages() {
    let (mut stack, change) = Stack::new(0x2000, 0x4000, VirtualAddress(0x10000), AccessType::UserAccessible);
    assert_eq!(stack.bottom_address, 0xe000);
    match change {
        StackChange::MapPages(pages, flags) => {
            assert_eq!(pages, PageRange { first: 0xe, last: 0x10 });
            assert_eq!(flags.bits, 1 | 2 | 16);
        },
        _ => panic!("a new stack maps its pages"),
    }
    // Growing stops at the maximum size.
    let grown = stack.grow(0x8000);
    assert_eq!(grown, PageRange { first: 0xc, last: 0xe });
    assert_eq!(stack.bottom_address, 0xc000);
    let shrunk = stack.shrink(0x1000);
    assert_eq!(shrunk, PageRange { first: 0xc, last: 0xd });
    match stack.resize(0) {
        StackChange::UnmapPages(pages) => assert_eq!(pages, PageRange { first: 0xd, last: 0x10 }),
        _ => panic!("resizing to zero unmaps"),
    }
    assert_eq!(stack.segment().memory_area.start_address.0, 0xc000);
}

#[test]
fn syscalls_are_decoded() {
    assert_eq!(syscall_handler(0, 65, 0, 0, 0, 0, 0), Syscall::PrintChar(65));
    assert_eq!(syscall_handler(4, 2, 5, 0, 0, 0, 0), Syscall::Sleep { seconds: 2, nanoseconds: 5 });
    assert_eq!(syscall_handler(3, 0x1000, 4, 0, 0, 0, 0), Syscall::Exec { name_ptr: 0x1000, name_length: 4 });
    assert_eq!(syscall_handler(9, 0, 0, 0, 0, 0, 0), Syscall::Unknown(9));
}

#[test]
fn sleep_computes_wake_time() {
    let now = Timestamp::from_duration(Duration::from_secs(10));
    assert_eq!(
        sleep_wake_time(1, 2_000_000_000, now),
        Some(Timestamp::from_duration(Duration::new(13, 0)))
    );
    assert_eq!(sleep_wake_time(u64::MAX, 0, now), None);
}

#[test]
fn bootloader_name_falls_back() {
    let memory = b"GRUB 2.06\0garbage";
    assert_eq!(get_bootloader_name(1 << 9, memory), "GRUB 2.06");
    assert_eq!(get_bootloader_name(0, memory), "a multiboot compliant bootloader");
    assert_eq!(get_bootloader_name(0, b"no end"), "a multiboot compliant bootloader");
}

#[test]
fn exec_name_needs_utf8() {
    assert_eq!(exec_name(b"init"), Some("init"));
    assert_eq!(exec_name(b""), Some(""));
    assert_eq!(exec_name(b"in\xc3"), None);
}

#[test]
fn c_strings_end_at_the_first_nul() {
    assert_eq!(c_string_length(b"abc\0def\0"), Some(3));
    assert_eq!(c_string_length(b"\0"), Some(0));
    assert_eq!(c_string_length(b"abc"), None);
    assert_eq!(read_c_string(b"loader\0\xff"), Some("loader"));
    assert_eq!(read_c_string(b"\0"), Some(""));
    assert_eq!(read_c_string(b"abc"), None);
    assert_eq!(read_c_string(b"\xff\xfe\0"), None);
}

#[test]
fn memory_map_yields_usable_areas() {
    let mut map = Vec::new();
    for (base, length, kind) in [(0u64, 0x9fc00u64, 1u32), (0x9fc00, 0x400, 2), (0x100000, 0x7ee0000, 1)] {
        map.extend_from_slice(&20u32.to_le_bytes());
        map.extend_from_slice(&base.to_le_bytes());
        map.extend_from_slice(&length.to_le_bytes());
        map.extend_from_slice(&kind.to_le_bytes());
    }
    let mut iterator = MemoryMapIterator::new(1 << 6, map.len() as u32);
    // the bytes after the map
    map.extend_from_slice(&[0u8; 23]);
    let first = iterator.next(&map).unwrap();
    assert_eq!(first.start_address.0, 0);
    assert_eq!(first.length, 0x9fc00);
    let second = iterator.next(&map).unwrap();
    assert_eq!(second.start_address.0, 0x100000);
    assert!(iterator.next(&map).is_none());
}

#[test]
fn initramfs_module_is_found() {
    let names = vec![b"kernel".to_vec(), b"initramfs".to_vec()];
    assert_eq!(find_initramfs_module(&names), Some(1));
    assert_eq!(find_initramfs_module(&vec![b"init".to_vec()]), None);
    let mut list = vec![0u8; 16];
    list[0..4].copy_from_slice(&0x200000u32.to_le_bytes());
    list[4..8].copy_from_slice(&0x203000u32.to_le_bytes());
    let entry = module_entry(&list, 0);
    let area = get_initramfs_area(entry);
    assert_eq!(area.start_address.0, 0x200000);
    assert_eq!(area.length, 0x3000);
}

#[test]
fn vga_info_defaults_to_text_mode() {
    let info = get_vga_info(None);
    assert_eq!((info.width, info.height), (80, 25));
    assert_eq!(info.address, 0xffff8000000b8000);
    let framebuffer = FramebufferInfo { framebuffer_addr: 0xfd000000, framebuffer_width: 1024, framebuffer_height: 768 };
    let info = get_vga_info(Some(framebuffer));
    assert_eq!((info.width, info.height), (1024, 768));
}

#[test]
fn logger_routes_levels() {
    let error = log_targets(LogLevel::Error);
    assert!(error.screen && error.serial_shows_level);
    assert_eq!(error.serial_color, Some(31));
    let info = log_targets(LogLevel::Info);
    assert!(info.screen && !info.serial_shows_level);
    assert!(!log_targets(LogLevel::Debug).screen);
}

#[test]
fn cpu_support_and_timer_delay() {
    assert!(cpu_supported(Some(true), Some((true, true))));
    assert!(!cpu_supported(Some(true), Some((true, false))));
    assert!(!cpu_supported(None, Some((true, true))));
    assert_eq!(timer_millis(Duration::new(2, 500_000_000)), 2500);
    assert_eq!(timer_millis(Duration::from_millis(150)), 150);
}

#[test]
fn memory_map_reads_last_entry_whole() {
    let mut memory = Vec::new();
    for (base, length, kind) in [(0u64, 0x1000u64, 2u32), (0x200000, 0x3000, 1)] {
        memory.extend_from_slice(&20u32.to_le_bytes());
        memory.extend_from_slice(&base.to_le_bytes());
        memory.extend_from_slice(&length.to_le_bytes());
        memory.extend_from_slice(&kind.to_le_bytes());
    }
    memory.extend_from_slice(&[0u8; 23]);
    // The map ends inside its second entry, which is still read whole.
    let mut iterator = MemoryMapIterator::new(1 << 6, 30);
    let area = iterator.next(&memory).unwrap();
    assert_eq!((area.start_address.0, area.length), (0x200000, 0x3000));
    assert!(iterator.next(&memory).is_none());
}

#[test]
fn multiboot2_memory_map_entries() {
    let mut tag = vec![0u8; 16];
    tag[0..4].copy_from_slice(&6u32.to_le_bytes());
    tag[4..8].copy_from_slice(&64u32.to_le_bytes());
    tag[8..12].copy_from_slice(&24u32.to_le_bytes());
    for (base, length, kind) in [(0u64, 0x9fc00u64, 1u32), (0x100000, 0x100000, 1)] {
        tag.extend_from_slice(&base.to_le_bytes());
        tag.extend_from_slice(&length.to_le_bytes());
        tag.extend_from_slice(&kind.to_le_bytes());
        tag.extend_from_slice(&0u32.to_le_bytes());
    }
    tag.extend_from_slice(&[0u8; 23]);
    let mut iterator = MemoryMapEntryVersion0Iterator::new();
    let first = iterator.next(&tag).unwrap();
    assert_eq!((first.base_addr, first.length, first.memory_type), (0, 0x9fc00, 1));
    let second = iterator.next(&tag).unwrap();
    assert_eq!(second.base_addr, 0x100000);
    assert!(iterator.next(&tag).is_none());
}

fn running_thread() -> TCB {
    TCB { id: 0, pid: 3, state: ThreadState::Running, priority: 1, start_address: 0x400000 }
}

fn user_space() -> AddressSpace {
    let mut space = AddressSpace::new();
    assert!(space.add_segment(Segment::new(
        MemoryArea::new(VirtualAddress(0x1000), 0x1000),
        PageFlags { bits: READABLE },
        SegmentType::FromFile,
    )));
    space
}

#[test]
fn syscall_step_decides_each_call() {
    let now = Timestamp::from_duration(Duration::from_secs(10));
    let space = user_space();
    let t = running_thread();
    let same = |r: (TCB, SyscallAction), action: SyscallAction| {
        let (thread, got) = r;
        assert_eq!(
            (thread.id, thread.pid, thread.state, thread.priority, thread.start_address),
            (t.id, t.pid, t.state, t.priority, t.start_address)
        );
        assert_eq!(got, action);
    };
    same(syscall_step(t, now, &space, 0, 65, 0, 0, 0, 0, 0), SyscallAction::Print(65));
    same(syscall_step(t, now, &space, 1, 0, 0, 0, 0, 0, 0), SyscallAction::KillProcess);
    same(syscall_step(t, now, &space, 2, 0, 0, 0, 0, 0, 0), SyscallAction::Return(3));
    same(syscall_step(t, now, &space, 3, 0x1800, 4, 0, 0, 0, 0), SyscallAction::Exec { name_ptr: 0x1800, name_length: 4 });
    // a name outside every segment
    same(syscall_step(t, now, &space, 3, 0x1ffe, 4, 0, 0, 0, 0), SyscallAction::Return(-1));
    let (slept, action) = syscall_step(t, now, &space, 4, 2, 500, 0, 0, 0, 0);
    assert_eq!(action, SyscallAction::Schedule);
    assert_eq!(slept.state, ThreadState::Sleeping(Timestamp::from_duration(Duration::new(12, 500))));
    assert_eq!(slept.pid, 3);
    // a wake time that does not fit kills the process
    same(syscall_step(t, now, &space, 4, u64::MAX, 0, 0, 0, 0, 0), SyscallAction::KillProcess);
    same(syscall_step(t, now, &space, 5, 0x1000, 0, 0, 0, 0, 0), SyscallAction::Return(-1));
    let (dead, action) = syscall_step(t, now, &space, 6, 0, 0, 0, 0, 0, 0);
    assert_eq!(dead.state, ThreadState::Dead);
    assert_eq!(action, SyscallAction::Schedule);
    // an unknown call kills the process
    same(syscall_step(t, now, &space, 7, 0, 0, 0, 0, 0, 0), SyscallAction::KillProcess);
}
