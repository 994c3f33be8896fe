use veos::elf::{
    process_from_initramfs_file, segment_page_flags, ElfError, ElfFile, Header, LoadStep, ProgramHeader,
};
use veos::mkinitramfs::{build_image, InitramfsFile};

fn put(bytes: &mut Vec<u8>, offset: usize, value: u64, width: usize) {
    for i in 0..width {
        bytes[offset + i] = (value >> (8 * i)) as u8;
    }
}

struct Segment {
    segment_type: u32,
    flags: u32,
    offset: u64,
    address: u64,
    file_size: u64,
    memory_size: u64,
}

fn elf(segments: &[Segment], entry: u64, data: &[(usize, &[u8])], total: usize) -> Vec<u8> {
    let mut bytes = vec![0u8; total];
    bytes[0..4].copy_from_slice(&[0x7f, b'E', b'L', b'F']);
    bytes[4] = 2;
    bytes[5] = 1;
    bytes[6] = 1;
    put(&mut bytes, 16, 2, 2);
    put(&mut bytes, 18, 0x3e, 2);
    put(&mut bytes, 20, 1, 4);
    put(&mut bytes, 24, entry, 8);
    put(&mut bytes, 32, 64, 8);
    put(&mut bytes, 52, 64, 2);
    put(&mut bytes, 54, 56, 2);
    put(&mut bytes, 56, segments.len() as u64, 2);
    for (i, s) in segments.iter().enumerate() {
        let at = 64 + 56 * i;
        put(&mut bytes, at, s.segment_type as u64, 4);
        put(&mut bytes, at + 4, s.flags as u64, 4);
        put(&mut bytes, at + 8, s.offset, 8);
        put(&mut bytes, at + 16, s.address, 8);
        put(&mut bytes, at + 32, s.file_size, 8);
        put(&mut bytes, at + 40, s.memory_size, 8);
        put(&mut bytes, at + 48, 0x1000, 8);
    }
    for (offset, d) in data {
        bytes[*offset..*offset + d.len()].copy_from_slice(d);
    }
    bytes
}

fn image_with(name: &[u8], content: Vec<u8>) -> Vec<u8> {
    build_image(&vec![InitramfsFile { name: name.to_vec(), content }])
}

fn simple_program() -> Vec<u8> {
    let load = Segment { segment_type: 1, flags: 5, offset: 0x100, address: 0x400000, file_size: 0x10, memory_size: 0x2000 };
    elf(&[load], 0x400000, &[(0x100, b"0123456789abcdef")], 0x200)
}

#[test]
fn header_is_read_from_bytes() {
    let bytes = simple_program();
    let header = Header::from_bytes(&bytes);
    assert!(header.is_valid());
    assert!(header.is_executable());
    assert_eq!(header.program_entry, 0x400000);
    assert_eq!(header.program_header_offset, 64);
    assert_eq!(header.program_header_entry_num, 1);
    let program_header = ProgramHeader::from_bytes(&bytes[64..]);
    assert_eq!(program_header.segment_type, 1);
    assert_eq!(program_header.virtual_address, 0x400000);
    assert!(program_header.is_fully_contained(0x200));
    assert!(!program_header.is_fully_contained(0x100));
}

#[test]
fn segment_flags_become_page_flags() {
    // readable and executable: user accessible, readable, executable
    assert_eq!(segment_page_flags(5).bits, 16 | 1 | 4);
    // writable only
    assert_eq!(segment_page_flags(2).bits, 16 | 2);
}

#[test]
fn program_is_loaded_page_by_page() {
    let image = image_with(b"init", simple_program());
    let program = process_from_initramfs_file(&image, "init").ok().unwrap();
    assert_eq!(program.entry.0, 0x400000);
    assert_eq!(program.address_space.segments.len(), 1);
    let segment = program.address_space.segments[0];
    assert_eq!(segment.memory_area.start_address.0, 0x400000);
    assert_eq!(segment.memory_area.length, 0x2000);
    assert_eq!(segment.flags.bits, 16 | 1 | 4);
    assert_eq!(program.steps.len(), 2);
    match &program.steps[0] {
        LoadStep::Write { address, data } => {
            assert_eq!(address.0, 0x400000);
            assert_eq!(&data[..], b"0123456789abcdef");
        },
        _ => panic!("the first step writes the data"),
    }
    match &program.steps[1] {
        LoadStep::MapPage { address } => assert_eq!(address.0, 0x401000),
        _ => panic!("the second step maps the rest"),
    }
}

#[test]
fn missing_program_is_reported() {
    let image = image_with(b"init", simple_program());
    assert_eq!(process_from_initramfs_file(&image, "other").err(), Some(ElfError::FileNotExistant));
}

#[test]
fn short_file_is_not_an_elf_file() {
    let image = image_with(b"init", vec![0x7f, b'E', b'L', b'F']);
    assert_eq!(ElfFile::from_initramfs(&image, "init").err(), Some(ElfError::NotAnElfFile));
}

#[test]
fn bad_magic_is_not_an_elf_file() {
    let mut program = simple_program();
    program[1] = b'X';
    let image = image_with(b"init", program);
    assert_eq!(ElfFile::from_initramfs(&image, "init").err(), Some(ElfError::NotAnElfFile));
}

#[test]
fn unknown_version_is_reported() {
    let mut program = simple_program();
    program[6] = 2;
    let image = image_with(b"init", program);
    assert_eq!(ElfFile::from_initramfs(&image, "init").err(), Some(ElfError::UnknownVersion));
}

#[test]
fn other_architecture_is_wrong_type() {
    let mut program = simple_program();
    program[18] = 0x28;
    let image = image_with(b"init", program);
    assert_eq!(ElfFile::from_initramfs(&image, "init").err(), Some(ElfError::WrongType));
}

#[test]
fn segment_beyond_file_is_invalid() {
    let load = Segment { segment_type: 1, flags: 4, offset: 0x100, address: 0x400000, file_size: 0x1000, memory_size: 0x1000 };
    let image = image_with(b"init", elf(&[load], 0x400000, &[], 0x200));
    assert_eq!(ElfFile::from_initramfs(&image, "init").err(), Some(ElfError::InvalidFile));
}

#[test]
fn overlapping_segments_are_reported() {
    let first = Segment { segment_type: 1, flags: 4, offset: 0x100, address: 0x400000, file_size: 0x10, memory_size: 0x2000 };
    let second = Segment { segment_type: 1, flags: 6, offset: 0x100, address: 0x401000, file_size: 0x10, memory_size: 0x1000 };
    let image = image_with(b"init", elf(&[first, second], 0x400000, &[], 0x200));
    assert_eq!(process_from_initramfs_file(&image, "init").err(), Some(ElfError::OverlappingSegments));
}

#[test]
fn kernel_half_segment_is_refused() {
    let load = Segment { segment_type: 1, flags: 4, offset: 0x100, address: 0xffff800000000000, file_size: 0x10, memory_size: 0x1000 };
    let image = image_with(b"init", elf(&[load], 0x400000, &[], 0x200));
    assert_eq!(process_from_initramfs_file(&image, "init").err(), Some(ElfError::OverlappingSegments));
}

#[test]
fn non_load_segments_are_skipped() {
    let note = Segment { segment_type: 4, flags: 4, offset: 0x100, address: 0x400000, file_size: 0x10, memory_size: 0x10 };
    let image = image_with(b"init", elf(&[note], 0x400000, &[], 0x200));
    let program = process_from_initramfs_file(&image, "init").ok().unwrap();
    assert_eq!(program.address_space.segments.len(), 0);
    assert_eq!(program.steps.len(), 0);
}
