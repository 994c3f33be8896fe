//! Handles ELF files: reading the file header and the program headers, and
//! planning how the loadable segments are placed in a new address space.

use vstd::prelude::*;
use vstd::string::StringSliceAdditionalSpecFns;
use crate::address_space::{AddressSpace, Segment, SegmentType, segments_overlap, segment_allowed};
use crate::file_handle::{FileError, FileHandle};
use crate::initramfs::{open, open_checkable, spec_open, find_file, header_in_range, entries_in_range, spec_initramfs_valid, FileDescriptor};
use crate::memory::{MemoryArea, PageFlags, VirtualAddress, PAGE_SIZE, READABLE, WRITABLE, EXECUTABLE, USER_ACCESSIBLE};

verus! {

/// The possible types of errors that can occur while handling ELF files.
#[derive(Clone, Copy, Debug, PartialEq, Eq, Structural)]
pub enum ElfError {
    /// The file to load doesn't exist.
    FileNotExistant,
    /// The file is too short or doesn't contain a valid header.
    NotAnElfFile,
    /// The file is using an unknown ELF version.
    UnknownVersion,
    /// The file is of the wrong type: another architecture, byte order or
    /// class, or not executable.
    WrongType,
    /// The file is not a valid ELF file.
    InvalidFile,
    /// The segments within the ELF file overlapped.
    OverlappingSegments,
}

/// The size of the ELF file header.
pub const HEADER_SIZE: u64 = 64;

/// The size of a program header.
pub const PROGRAM_HEADER_SIZE: u64 = 56;

/// The class of a 64 bit executable, the one of the kernel.
pub const NATIVE_CLASS: u8 = 2;

/// Least significant byte first, the byte order of the kernel.
pub const NATIVE_ENDIANNESS: u8 = 1;

/// The instruction set x86_64, the one of the machine.
pub const NATIVE_INSTRUCTION_SET: u16 = 0x3e;

/// The ELF file type of executables.
pub const EXECUTABLE_TYPE: u16 = 2;

/// The segment type of a loadable segment.
pub const LOAD_SEGMENT: u32 = 1;

/// The segment may be executed.
pub const SEGMENT_EXECUTABLE: u32 = 1;

/// The segment is writable.
pub const SEGMENT_WRITABLE: u32 = 2;

/// The segment is readable.
pub const SEGMENT_READABLE: u32 = 4;

/// The first `k` bytes of `b` or-ed in at their little endian places.
pub open spec fn le_fold(b: Seq<u8>, k: int) -> u64
    decreases k,
{
    if k <= 0 {
        0
    } else {
        le_fold(b, k - 1) | ((b[k - 1] as u64) << ((k - 1) * 8) as u64)
    }
}

/// The first `k` bytes, for `k` up to 4, make a number below `1 << 8k`.
pub proof fn lemma_le_fold_bound(b: Seq<u8>, k: int)
    requires
        0 <= k <= 4,
    ensures
        le_fold(b, k) < (1u64 << (8 * k) as u64),
        le_fold(b, k) <= u32::MAX,
    decreases k,
{
    if k > 0 {
        lemma_le_fold_bound(b, k - 1);
        let p = le_fold(b, k - 1);
        let x = b[k - 1] as u64;
        let s = ((k - 1) * 8) as u64;
        assert((p | (x << s)) < (1u64 << (s + 8)) && (1u64 << (s + 8)) <= 0x1_0000_0000u64) by (bit_vector)
            requires
                p < (1u64 << s),
                x < 256,
                s <= 24,
        ;
        assert(s + 8 == (8 * k) as u64);
    } else {
        assert((1u64 << 0u64) == 1) by (bit_vector);
    }
}

/// The value of `width` bytes at `offset`, least significant byte first.
pub open spec fn le_at(b: Seq<u8>, offset: int, width: int) -> u64 {
    le_fold(b.subrange(offset, offset + width), width)
}

/// Reads `width` bytes at `offset` as a little endian number.
pub fn read_le(bytes: &[u8], offset: usize, width: usize) -> (r: u64)
    requires
        width <= 8,
        offset + width <= bytes@.len(),
    ensures
        r == le_at(bytes@, offset as int, width as int),
{
    let ghost b = bytes@.subrange(offset as int, offset + width);
    let len = bytes.len();
    let mut result: u64 = 0;
    let mut i: usize = 0;
    while i < width
        invariant
            0 <= i <= width <= 8,
            len == bytes@.len(),
            offset + width <= len,
            b == bytes@.subrange(offset as int, offset + width),
            result == le_fold(b, i as int),
        decreases width - i,
    {
        assert(bytes[offset + i] == b[i as int]);
        result = result | ((bytes[offset + i] as u64) << (i * 8) as u64);
        i = i + 1;
    }
    result
}

/// Represents the header at the beginning of an ELF file.
#[derive(Clone, Copy, Debug)]
pub struct Header {
    /// The magic number bytes.
    pub magic: (u8, u8, u8, u8),
    /// The class of ELF file.
    pub elf_class: u8,
    /// The endianness of the ELF file.
    pub endianness: u8,
    /// The ELF version.
    pub version: u8,
    /// The ABI of the file.
    pub abi: u8,
    /// The ABI version of the file.
    pub abi_version: u8,
    /// The type of ELF file.
    pub elf_type: u16,
    /// The instruction set used by the ELF file.
    pub instruction_set: u16,
    /// The version of the ELF file.
    pub elf_version: u32,
    /// The entry address for the program.
    pub program_entry: u64,
    /// The offset from file start to the program header.
    pub program_header_offset: u64,
    /// The offset from file start to the section header.
    pub section_header_offset: u64,
    /// Architecture specific flags.
    pub flags: u32,
    /// The size of the ELF header.
    pub header_size: u16,
    /// The size of a program header entry.
    pub program_header_entry_size: u16,
    /// The amount of program header entries.
    pub program_header_entry_num: u16,
    /// The size of a section header entry.
    pub section_header_entry_size: u16,
    /// The amount of section header entries.
    pub section_header_entry_num: u16,
    /// The index of the section header to the name strings.
    pub name_string_table_index: u16,
}

/// The header described by the first 64 bytes of `b`, in the layout of an
/// ELF64 header on a little endian machine.
pub open spec fn spec_header(b: Seq<u8>) -> Header {
    Header {
        magic: (b[0], b[1], b[2], b[3]),
        elf_class: b[4],
        endianness: b[5],
        version: b[6],
        abi: b[7],
        abi_version: b[8],
        elf_type: le_at(b, 16, 2) as u16,
        instruction_set: le_at(b, 18, 2) as u16,
        elf_version: le_at(b, 20, 4) as u32,
        program_entry: le_at(b, 24, 8),
        program_header_offset: le_at(b, 32, 8),
        section_header_offset: le_at(b, 40, 8),
        flags: le_at(b, 48, 4) as u32,
        header_size: le_at(b, 52, 2) as u16,
        program_header_entry_size: le_at(b, 54, 2) as u16,
        program_header_entry_num: le_at(b, 56, 2) as u16,
        section_header_entry_size: le_at(b, 58, 2) as u16,
        section_header_entry_num: le_at(b, 60, 2) as u16,
        name_string_table_index: le_at(b, 62, 2) as u16,
    }
}

impl Header {
    /// The header starts with the magic number `0x7f 'E' 'L' 'F'`.
    pub open spec fn spec_is_valid(&self) -> bool {
        self.magic == (0x7fu8, 69u8, 76u8, 70u8)
    }

    /// The file can be executed by this kernel: native byte order,
    /// instruction set and class, the System V ABI, the executable type and
    /// a program header.
    pub open spec fn spec_is_executable(&self) -> bool {
        &&& self.endianness == NATIVE_ENDIANNESS
        &&& self.instruction_set == NATIVE_INSTRUCTION_SET
        &&& self.abi == 0
        &&& self.abi_version == 0
        &&& self.elf_type == EXECUTABLE_TYPE
        &&& self.program_header_offset != 0
        &&& self.elf_class == NATIVE_CLASS
    }

    /// Reads the header from the first 64 bytes of the buffer.
    pub fn from_bytes(b: &[u8]) -> (r: Header)
        requires
            b@.len() >= HEADER_SIZE,
        ensures
            r == spec_header(b@),
    {
        Header {
            magic: (b[0], b[1], b[2], b[3]),
            elf_class: b[4],
            endianness: b[5],
            version: b[6],
            abi: b[7],
            abi_version: b[8],
            elf_type: read_le(b, 16, 2) as u16,
            instruction_set: read_le(b, 18, 2) as u16,
            elf_version: read_le(b, 20, 4) as u32,
            program_entry: read_le(b, 24, 8),
            program_header_offset: read_le(b, 32, 8),
            section_header_offset: read_le(b, 40, 8),
            flags: read_le(b, 48, 4) as u32,
            header_size: read_le(b, 52, 2) as u16,
            program_header_entry_size: read_le(b, 54, 2) as u16,
            program_header_entry_num: read_le(b, 56, 2) as u16,
            section_header_entry_size: read_le(b, 58, 2) as u16,
            section_header_entry_num: read_le(b, 60, 2) as u16,
            name_string_table_index: read_le(b, 62, 2) as u16,
        }
    }

    /// Returns true if the header is valid and can be understood by the
    /// kernel.
    pub fn is_valid(&self) -> (r: bool)
        ensures
            r == self.spec_is_valid(),
    {
        self.magic.0 == 0x7f && self.magic.1 == 69 && self.magic.2 == 76 && self.magic.3 == 70
    }

    /// Returns true if the file can be executed.
    pub fn is_executable(&self) -> (r: bool)
        ensures
            r == self.spec_is_executable(),
    {
        self.endianness == NATIVE_ENDIANNESS && self.instruction_set == NATIVE_INSTRUCTION_SET && self.abi == 0
            && self.abi_version == 0 && self.elf_type == EXECUTABLE_TYPE && self.program_header_offset != 0
            && self.elf_class == NATIVE_CLASS
    }

    /// Creates an ELF header from the file handle.
    ///
    /// The header is read at the current position of the file.
    pub fn from_file_handle(file_handle: &mut FileDescriptor) -> (r: Result<Header, ElfError>)
        requires
            old(file_handle).length() >= HEADER_SIZE ==> old(file_handle).offset() + HEADER_SIZE
                <= old(file_handle).length(),
        ensures
            final(file_handle).image() == old(file_handle).image(),
            final(file_handle).start() == old(file_handle).start(),
            final(file_handle).length() == old(file_handle).length(),
            final(file_handle).offset() == old(file_handle).offset(),
            r == spec_header_from_file(old(file_handle).content(), old(file_handle).offset() as int),
    {
        let file_size = file_handle.len();
        if file_size < HEADER_SIZE {
            return Err(ElfError::NotAnElfFile);
        }
        let mut header_buffer: Vec<u8> = vec![0u8; 64];
        let read_result = file_handle.read(header_buffer.as_mut_slice());
        assert(read_result is Ok);
        let header = Header::from_bytes(header_buffer.as_slice());
        if !header.is_valid() {
            return Err(ElfError::NotAnElfFile);
        }
        if header.version != 1 {
            return Err(ElfError::UnknownVersion);
        }
        if !header.is_executable() {
            return Err(ElfError::WrongType);
        }
        Ok(header)
    }
}

/// What reading a header at `offset` of a file with the given content
/// yields.
pub open spec fn spec_header_from_file(content: Seq<u8>, offset: int) -> Result<Header, ElfError> {
    if content.len() < HEADER_SIZE {
        Err(ElfError::NotAnElfFile)
    } else {
        let header = spec_header(content.subrange(offset, offset + HEADER_SIZE));
        if !header.spec_is_valid() {
            Err(ElfError::NotAnElfFile)
        } else if header.version != 1 {
            Err(ElfError::UnknownVersion)
        } else if !header.spec_is_executable() {
            Err(ElfError::WrongType)
        } else {
            Ok(header)
        }
    }
}


/// Represents a program header of an ELF file.
#[derive(Clone, Copy, Debug, PartialEq, Eq, Structural)]
pub struct ProgramHeader {
    /// The type of the segment.
    pub segment_type: u32,
    /// The flags of the segment.
    pub flags: u32,
    /// The offset of the segment from the beginning of the file.
    pub offset: u64,
    /// The virtual address at which the segment should be mapped.
    pub virtual_address: u64,
    /// The physical address at which the segment should be mapped.
    pub physical_address: u64,
    /// The size of the segment within the file.
    pub size_in_file: u64,
    /// The size of the segment within memory.
    pub size_in_memory: u64,
    /// The alignment of the segment.
    pub align: u64,
}

/// The program header described by the first 56 bytes of `b`, in the layout
/// of an ELF64 program header on a little endian machine.
pub open spec fn spec_program_header(b: Seq<u8>) -> ProgramHeader {
    ProgramHeader {
        segment_type: le_at(b, 0, 4) as u32,
        flags: le_at(b, 4, 4) as u32,
        offset: le_at(b, 8, 8),
        virtual_address: le_at(b, 16, 8),
        physical_address: le_at(b, 24, 8),
        size_in_file: le_at(b, 32, 8),
        size_in_memory: le_at(b, 40, 8),
        align: le_at(b, 48, 8),
    }
}

impl ProgramHeader {
    /// Reads the program header from the first 56 bytes of the buffer.
    pub fn from_bytes(b: &[u8]) -> (r: ProgramHeader)
        requires
            b@.len() >= PROGRAM_HEADER_SIZE,
        ensures
            r == spec_program_header(b@),
    {
        ProgramHeader {
            segment_type: read_le(b, 0, 4) as u32,
            flags: read_le(b, 4, 4) as u32,
            offset: read_le(b, 8, 8),
            virtual_address: read_le(b, 16, 8),
            physical_address: read_le(b, 24, 8),
            size_in_file: read_le(b, 32, 8),
            size_in_memory: read_le(b, 40, 8),
            align: read_le(b, 48, 8),
        }
    }

    /// The segment lies within a file of the given size, or is empty there.
    pub open spec fn spec_is_fully_contained(&self, file_size: u64) -> bool {
        file_size >= saturating(self.offset + self.size_in_file) || self.size_in_file == 0
    }

    /// Checks that the segment lies within a file of the given size.
    pub fn is_fully_contained(&self, file_size: u64) -> (r: bool)
        ensures
            r == self.spec_is_fully_contained(file_size),
    {
        file_size >= self.offset.saturating_add(self.size_in_file) || self.size_in_file == 0
    }
}

/// The value clamped to the range of `u64`, as a saturating operation does.
pub open spec fn saturating(x: int) -> u64 {
    if x > u64::MAX {
        u64::MAX
    } else if x < 0 {
        0
    } else {
        x as u64
    }
}

/// The position of program header `i` in the file.
pub open spec fn program_header_position(h: Header, i: int) -> int {
    h.program_header_offset + h.program_header_entry_size * i
}

/// Program header `i` of a file with the given content and header.
pub open spec fn program_header_at(content: Seq<u8>, h: Header, i: int) -> ProgramHeader {
    let p = program_header_position(h, i);
    spec_program_header(content.subrange(p, p + PROGRAM_HEADER_SIZE))
}

/// The end of the program header table, as the file check computes it.
pub open spec fn table_end(h: Header) -> u64 {
    saturating(h.program_header_offset + saturating(h.program_header_entry_num * h.program_header_entry_size))
}

/// Each program header can be read whole while the ones before it lie
/// within the file.
pub open spec fn program_headers_readable(content: Seq<u8>, h: Header) -> bool {
    forall|i: int| 0 <= i < h.program_header_entry_num && (forall|j: int| 0 <= j < i
        ==> #[trigger] program_header_at(content, h, j).spec_is_fully_contained(content.len() as u64))
        ==> program_header_position(h, i) + PROGRAM_HEADER_SIZE <= content.len()
}

/// The program header table lies within the file and so does every segment.
pub open spec fn program_headers_valid(content: Seq<u8>, h: Header) -> bool {
    &&& content.len() >= table_end(h)
    &&& forall|i: int| 0 <= i < h.program_header_entry_num ==> #[trigger] program_header_at(content, h, i).spec_is_fully_contained(
        content.len() as u64,
    )
}

/// Provides an iteration over the program headers.
pub struct ProgramHeaderIterator {
    /// The index of the current program header.
    pub current_header_index: u64,
    /// The amount of program headers in the table.
    pub header_num: u64,
    /// The size of a single program header.
    pub header_size: u64,
    /// The offset of the program header table in the file.
    pub header_offset: u64,
}

impl ProgramHeaderIterator {
    /// Creates an iteration over the program headers the header describes.
    pub fn new(header: &Header) -> (r: ProgramHeaderIterator)
        ensures
            r.current_header_index == 0,
            r.header_num == header.program_header_entry_num,
            r.header_size == header.program_header_entry_size,
            r.header_offset == header.program_header_offset,
    {
        ProgramHeaderIterator {
            current_header_index: 0,
            header_num: header.program_header_entry_num as u64,
            header_size: header.program_header_entry_size as u64,
            header_offset: header.program_header_offset,
        }
    }

    /// Reads the next program header from the file, if there is one.
    pub fn next(&mut self, file_handle: &mut FileDescriptor) -> (r: Option<ProgramHeader>)
        requires
            old(self).header_num <= u16::MAX,
            old(self).header_size <= u16::MAX,
            old(self).current_header_index < old(self).header_num ==> old(self).header_offset
                + old(self).header_size * old(self).current_header_index + PROGRAM_HEADER_SIZE
                <= old(file_handle).length(),
        ensures
            final(file_handle).image() == old(file_handle).image(),
            final(file_handle).start() == old(file_handle).start(),
            final(file_handle).length() == old(file_handle).length(),
            final(self).header_num == old(self).header_num,
            final(self).header_size == old(self).header_size,
            final(self).header_offset == old(self).header_offset,
            old(self).current_header_index >= old(self).header_num ==> r is None && final(self).current_header_index
                == old(self).current_header_index,
            old(self).current_header_index < old(self).header_num ==> {
                let p = old(self).header_offset + old(self).header_size * old(self).current_header_index;
                &&& r == Some(spec_program_header(old(file_handle).content().subrange(p, p + PROGRAM_HEADER_SIZE)))
                &&& final(self).current_header_index == old(self).current_header_index + 1
            },
    {
        if self.current_header_index >= self.header_num {
            None
        } else {
            assert(self.header_size * self.current_header_index <= 0xffff * 0xffff) by (nonlinear_arith)
                requires
                    self.header_size <= 0xffff,
                    self.current_header_index < 0xffff + 1,
            ;
            let position = self.header_offset + self.header_size * self.current_header_index;
            let mut buffer: Vec<u8> = vec![0u8; 56];
            let read_result = file_handle.read_at(buffer.as_mut_slice(), position);
            assert(read_result is Ok);
            let program_header = ProgramHeader::from_bytes(buffer.as_slice());
            self.current_header_index = self.current_header_index + 1;
            Some(program_header)
        }
    }
}

/// The pages of a segment are user accessible, and each of readable,
/// writable and executable exactly when the segment's flags have the
/// matching bit, whatever its other bits; no other page flag is set.
pub proof fn lemma_segment_page_flags_bits(flags: u32)
    ensures
        spec_segment_page_flags(flags) & 16 == 16,
        (spec_segment_page_flags(flags) & 1 != 0) == (flags & 4 != 0),
        (spec_segment_page_flags(flags) & 2 != 0) == (flags & 2 != 0),
        (spec_segment_page_flags(flags) & 4 != 0) == (flags & 1 != 0),
        spec_segment_page_flags(flags) & !0x17u8 == 0,
{
    let r = spec_segment_page_flags(flags);
    assert(r == 16u8 | (if flags & 4u32 == 4u32 { 1u8 } else { 0u8 }) | (if flags & 2u32 == 2u32 {
        2u8
    } else {
        0u8
    }) | (if flags & 1u32 == 1u32 { 4u8 } else { 0u8 }));
    assert({
        &&& r & 16 == 16
        &&& (r & 1 != 0) == (flags & 4 != 0)
        &&& (r & 2 != 0) == (flags & 2 != 0)
        &&& (r & 4 != 0) == (flags & 1 != 0)
        &&& r & !0x17u8 == 0
    }) by (bit_vector)
        requires
            r == 16u8 | (if flags & 4u32 == 4u32 { 1u8 } else { 0u8 }) | (if flags & 2u32 == 2u32 {
                2u8
            } else {
                0u8
            }) | (if flags & 1u32 == 1u32 { 4u8 } else { 0u8 }),
    ;
}

/// Converts the flags of a segment to the flags of the pages it is mapped
/// with: user accessible, and readable, writable and executable as the
/// segment is.
pub fn segment_page_flags(flags: u32) -> (r: PageFlags)
    ensures
        r.bits == spec_segment_page_flags(flags),
        r.bits & 16 == 16,
        (r.bits & 1 != 0) == (flags & 4 != 0),
        (r.bits & 2 != 0) == (flags & 2 != 0),
        (r.bits & 4 != 0) == (flags & 1 != 0),
        r.bits & !0x17u8 == 0,
{
    proof {
        lemma_segment_page_flags_bits(flags);
    }
    let readable: u8 = if flags & SEGMENT_READABLE == SEGMENT_READABLE { READABLE } else { 0 };
    let writable: u8 = if flags & SEGMENT_WRITABLE == SEGMENT_WRITABLE { WRITABLE } else { 0 };
    let executable: u8 = if flags & SEGMENT_EXECUTABLE == SEGMENT_EXECUTABLE { EXECUTABLE } else { 0 };
    PageFlags { bits: USER_ACCESSIBLE | readable | writable | executable }
}

/// The page flag bits for a segment with the given flags.
pub open spec fn spec_segment_page_flags(flags: u32) -> u8 {
    USER_ACCESSIBLE | (if flags & SEGMENT_READABLE == SEGMENT_READABLE { READABLE } else { 0 }) | (if flags
        & SEGMENT_WRITABLE == SEGMENT_WRITABLE { WRITABLE } else { 0 }) | (if flags & SEGMENT_EXECUTABLE
        == SEGMENT_EXECUTABLE { EXECUTABLE } else { 0 })
}

/// Represents an ELF file: the handle to the file and its header.
pub struct ElfFile<'a> {
    /// The handle to the file.
    pub file_handle: FileDescriptor<'a>,
    /// The header of the ELF file.
    pub header: Header,
}

/// What reading the ELF file with the given name from the initramfs image
/// yields: the position and length of the file in the image and its header,
/// or the error.
pub open spec fn spec_from_initramfs(image: Seq<u8>, name: Seq<u8>) -> Result<(u64, u64, Header), ElfError> {
    match spec_open(image, name) {
        Err(_) => Err(ElfError::FileNotExistant),
        Ok((start, length)) => {
            let content = image.subrange(start as int, start + length);
            match spec_header_from_file(content, 0) {
                Err(e) => Err(e),
                Ok(h) => if program_headers_valid(content, h) {
                    Ok((start, length, h))
                } else {
                    Err(ElfError::InvalidFile)
                },
            }
        },
    }
}

/// Reading the file with the given name from the image does not go wrong on
/// the way: the file system metadata can be checked without overflow, and
/// every program header of a file whose header table lies within it can be
/// read whole.
pub open spec fn initramfs_file_readable(image: Seq<u8>, name: Seq<u8>) -> bool {
    &&& image.len() <= i64::MAX
    &&& header_in_range(image)
    &&& spec_initramfs_valid(image) ==> entries_in_range(image, 0, find_file(image, name, 0))
    &&& spec_open(image, name) matches Ok((start, length)) ==> {
        let content = image.subrange(start as int, start + length);
        spec_header_from_file(content, 0) matches Ok(h) ==> (content.len() >= table_end(h)
            ==> program_headers_readable(content, h))
    }
}

impl<'a> ElfFile<'a> {
    /// The content of the file.
    pub open spec fn content(&self) -> Seq<u8> {
        self.file_handle.content()
    }

    /// The program header table and every segment lie within the file, and
    /// every program header can be read.
    pub open spec fn wf(&self) -> bool {
        &&& program_headers_valid(self.content(), self.header)
        &&& program_headers_readable(self.content(), self.header)
    }

    /// Reads an ELF file from the initramfs image.
    pub fn from_initramfs(image: &'a [u8], name: &str) -> (r: Result<ElfFile<'a>, ElfError>)
        requires
            initramfs_file_readable(image@, name.spec_bytes()),
        ensures
            r is Ok <==> spec_from_initramfs(image@, name.spec_bytes()) is Ok,
            r matches Ok(f) ==> {
                &&& spec_from_initramfs(image@, name.spec_bytes()) == Ok::<(u64, u64, Header), ElfError>(
                    (f.file_handle.start(), f.file_handle.length(), f.header),
                )
                &&& f.file_handle.image() == image@
                &&& f.wf()
            },
            r matches Err(e) ==> spec_from_initramfs(image@, name.spec_bytes()) == Err::<
                (u64, u64, Header),
                ElfError,
            >(e),
    {
        let mut file_handle = match open(image, name) {
            Ok(fd) => fd,
            Err(_) => {
                return Err(ElfError::FileNotExistant);
            },
        };
        let file_size = file_handle.len();
        let header = match Header::from_file_handle(&mut file_handle) {
            Ok(h) => h,
            Err(e) => {
                return Err(e);
            },
        };
        let ghost content = file_handle.content();
        assert(content.len() == file_size);
        assert((header.program_header_entry_num as u64) * (header.program_header_entry_size as u64) <= 0xffff
            * 0xffff) by (nonlinear_arith)
            requires
                header.program_header_entry_num <= 0xffff,
                header.program_header_entry_size <= 0xffff,
        ;
        let table_size = (header.program_header_entry_num as u64) * (header.program_header_entry_size as u64);
        assert(saturating(header.program_header_entry_num * header.program_header_entry_size) == table_size);
        if file_size < header.program_header_offset.saturating_add(table_size) {
            return Err(ElfError::InvalidFile);
        }
        assert(content.len() >= table_end(header));
        assert(program_headers_readable(content, header));
        let mut iterator = ProgramHeaderIterator::new(&header);
        while iterator.current_header_index < iterator.header_num
            invariant
                file_handle.image() == image@,
                file_handle.length() == file_size,
                file_handle.content() == content,
                content.len() == file_size,
                content.len() >= table_end(header),
                program_headers_readable(content, header),
                iterator.header_num == header.program_header_entry_num,
                iterator.header_size == header.program_header_entry_size,
                iterator.header_offset == header.program_header_offset,
                iterator.current_header_index <= iterator.header_num,
                spec_open(image@, name.spec_bytes()) == Ok::<(u64, u64), FileError>(
                    (file_handle.start(), file_handle.length()),
                ),
                spec_header_from_file(content, 0) == Ok::<Header, ElfError>(header),
                forall|j: int| 0 <= j < iterator.current_header_index ==> #[trigger] program_header_at(
                    content,
                    header,
                    j,
                ).spec_is_fully_contained(content.len() as u64),
            decreases iterator.header_num - iterator.current_header_index,
        {
            let ghost k = iterator.current_header_index as int;
            assert(program_header_position(header, k) + PROGRAM_HEADER_SIZE <= content.len());
            match iterator.next(&mut file_handle) {
                Some(program_header) => {
                    assert(program_header == program_header_at(content, header, k));
                    if !program_header.is_fully_contained(file_size) {
                        assert(!program_header_at(content, header, k).spec_is_fully_contained(
                            content.len() as u64,
                        ));
                        return Err(ElfError::InvalidFile);
                    }
                },
                None => {},
            }
        }
        Ok(ElfFile { file_handle, header })
    }

    /// Returns an iteration over the program header table.
    pub fn program_headers(&self) -> (r: ProgramHeaderIterator)
        ensures
            r.current_header_index == 0,
            r.header_num == self.header.program_header_entry_num,
            r.header_size == self.header.program_header_entry_size,
            r.header_offset == self.header.program_header_offset,
    {
        ProgramHeaderIterator::new(&self.header)
    }
}

/// One step of loading a program into its new address space.
pub enum LoadStep {
    /// Write the data, read from the file, at the address.
    Write { address: VirtualAddress, data: Vec<u8> },
    /// Map the page at the address.
    MapPage { address: VirtualAddress },
}

/// A loading step with its address and data as plain values.
pub enum StepView {
    /// Write the bytes at the address.
    Write(u64, Seq<u8>),
    /// Map the page at the address.
    MapPage(u64),
}

impl View for LoadStep {
    type V = StepView;

    open spec fn view(&self) -> StepView {
        match self {
            LoadStep::Write { address, data } => StepView::Write(address.0, data@),
            LoadStep::MapPage { address } => StepView::MapPage(address.0),
        }
    }
}

/// The steps as plain values.
pub open spec fn steps_view(steps: Seq<LoadStep>) -> Seq<StepView> {
    steps.map_values(|s: LoadStep| s@)
}

/// A program ready to be loaded: its address space, the steps that fill
/// it, and the address at which it starts.
pub struct LoadedProgram {
    /// The address space with the segments of the program.
    pub address_space: AddressSpace,
    /// The writes and mappings that fill the address space, in order.
    pub steps: Vec<LoadStep>,
    /// The entry address of the program.
    pub entry: VirtualAddress,
}

/// The segment that a loadable program header describes.
pub open spec fn spec_segment(ph: ProgramHeader) -> Segment {
    Segment {
        memory_area: MemoryArea { start_address: VirtualAddress(ph.virtual_address), length: ph.size_in_memory },
        flags: PageFlags { bits: spec_segment_page_flags(ph.flags) },
        segment_type: SegmentType::FromFile,
    }
}

/// The number of pages the part of the segment within the file spans.
pub open spec fn pages_in_file(ph: ProgramHeader) -> int {
    if ph.size_in_file != 0 {
        (ph.size_in_file - 1) / (PAGE_SIZE as int) + 1
    } else {
        0
    }
}

/// The number of pages the segment spans in memory.
pub open spec fn pages_in_memory(ph: ProgramHeader) -> int {
    (ph.size_in_memory - 1) / (PAGE_SIZE as int) + 1
}

/// The number of bytes of page `i` of the segment that come from the file.
pub open spec fn chunk_length(ph: ProgramHeader, i: int) -> int {
    if ph.size_in_file < (i + 1) * PAGE_SIZE {
        (ph.size_in_file % PAGE_SIZE) as int
    } else {
        PAGE_SIZE as int
    }
}

/// The writes that copy the segment from the file, page by page.
pub open spec fn write_steps(content: Seq<u8>, ph: ProgramHeader) -> Seq<StepView> {
    Seq::new(
        pages_in_file(ph) as nat,
        |i: int|
            StepView::Write(
                (ph.virtual_address + i * PAGE_SIZE) as u64,
                content.subrange(ph.offset + i * PAGE_SIZE, ph.offset + i * PAGE_SIZE + chunk_length(ph, i)),
            ),
    )
}

/// The mappings of the pages of the segment beyond the part from the file.
pub open spec fn map_steps(ph: ProgramHeader) -> Seq<StepView> {
    Seq::new(
        if pages_in_memory(ph) > pages_in_file(ph) {
            (pages_in_memory(ph) - pages_in_file(ph)) as nat
        } else {
            0
        },
        |j: int| StepView::MapPage((ph.virtual_address + (pages_in_file(ph) + j) * PAGE_SIZE) as u64),
    )
}

/// A loadable segment can be placed without going wrong: it is not empty,
/// it fits in the address space, and its part from the file is no larger
/// than the segment.
pub open spec fn load_sane(ph: ProgramHeader) -> bool {
    ph.segment_type == LOAD_SEGMENT ==> {
        &&& ph.size_in_memory > 0
        &&& ph.virtual_address + ph.size_in_memory <= u64::MAX
        &&& ph.size_in_file <= ph.size_in_memory
    }
}

/// Every loadable segment of the file can be placed.
pub open spec fn segments_loadable(content: Seq<u8>, h: Header) -> bool {
    forall|i: int| 0 <= i < h.program_header_entry_num ==> load_sane(#[trigger] program_header_at(content, h, i))
}

/// The segments and loading steps of the first `k` program headers, or
/// the error that placing them runs into.
pub open spec fn plan(content: Seq<u8>, h: Header, k: int) -> Result<(Seq<Segment>, Seq<StepView>), ElfError>
    decreases k,
{
    if k <= 0 {
        Ok((Seq::empty(), Seq::empty()))
    } else {
        match plan(content, h, k - 1) {
            Err(e) => Err(e),
            Ok((segments, steps)) => {
                let ph = program_header_at(content, h, k - 1);
                if ph.segment_type != LOAD_SEGMENT {
                    Ok((segments, steps))
                } else {
                    let s = spec_segment(ph);
                    if (forall|i: int| 0 <= i < segments.len() ==> !segments_overlap(s, #[trigger] segments[i]))
                        && segment_allowed(s) {
                        Ok((segments.push(s), steps + write_steps(content, ph) + map_steps(ph)))
                    } else {
                        Err(ElfError::OverlappingSegments)
                    }
                }
            },
        }
    }
}

/// Once placing the segments failed, it stays failed with the same error.
proof fn lemma_plan_err_stays(content: Seq<u8>, h: Header, k: int, m: int)
    requires
        k <= m,
        plan(content, h, k) is Err,
    ensures
        plan(content, h, m) == plan(content, h, k),
    decreases m - k,
{
    if k < m {
        lemma_plan_err_stays(content, h, k, m - 1);
    }
}

/// Page `i` of a non-empty area of `n` bytes starts within it.
proof fn lemma_page_start(n: int, i: int)
    requires
        n > 0,
        0 <= i < (n - 1) / (PAGE_SIZE as int) + 1,
    ensures
        i * PAGE_SIZE <= n - 1,
{
    assert(i * 4096 <= n - 1) by (nonlinear_arith)
        requires
            n > 0,
            0 <= i,
            i <= (n - 1) / 4096,
    ;
}

/// The bytes of page `i` that come from the file lie within the part of the
/// segment in the file.
proof fn lemma_chunk(ph: ProgramHeader, i: int)
    requires
        ph.size_in_file > 0,
        0 <= i < pages_in_file(ph),
    ensures
        0 < chunk_length(ph, i) <= PAGE_SIZE,
        i * PAGE_SIZE + chunk_length(ph, i) <= ph.size_in_file,
{
    let n = ph.size_in_file as int;
    lemma_page_start(n, i);
    if n < (i + 1) * 4096 {
        assert(i * 4096 + n % 4096 == n && n % 4096 > 0) by (nonlinear_arith)
            requires
                0 <= i,
                i * 4096 <= n - 1,
                n < (i + 1) * 4096,
        ;
    }
}

/// Adds the steps that fill a loadable segment: the writes of its pages
/// from the file, then the mappings of the pages beyond.
fn add_segment_steps(file_handle: &mut FileDescriptor, ph: &ProgramHeader, steps: &mut Vec<LoadStep>)
    requires
        ph.segment_type == LOAD_SEGMENT,
        load_sane(*ph),
        ph.size_in_file == 0 || ph.offset + ph.size_in_file <= old(file_handle).length(),
        old(file_handle).start() + old(file_handle).length() <= old(file_handle).image().len(),
        old(file_handle).length() <= i64::MAX,
    ensures
        final(file_handle).image() == old(file_handle).image(),
        final(file_handle).start() == old(file_handle).start(),
        final(file_handle).length() == old(file_handle).length(),
        steps_view(final(steps)@) == steps_view(old(steps)@) + write_steps(old(file_handle).content(), *ph)
            + map_steps(*ph),
{
    let ghost content = file_handle.content();
    let ghost before = steps_view(steps@);
    let file_pages: u64 = if ph.size_in_file != 0 {
        (ph.size_in_file - 1) / PAGE_SIZE + 1
    } else {
        0
    };
    let mut i: u64 = 0;
    while i < file_pages
        invariant
            ph.segment_type == LOAD_SEGMENT,
            load_sane(*ph),
            ph.size_in_file == 0 || ph.offset + ph.size_in_file <= file_handle.length(),
            file_handle.start() + file_handle.length() <= file_handle.image().len(),
            file_handle.length() <= i64::MAX,
            file_handle.content() == content,
            file_handle.image() == old(file_handle).image(),
            file_handle.start() == old(file_handle).start(),
            file_handle.length() == old(file_handle).length(),
            content == old(file_handle).content(),
            before == steps_view(old(steps)@),
            file_pages == pages_in_file(*ph),
            0 <= i <= file_pages,
            steps_view(steps@) == before + write_steps(content, *ph).take(i as int),
        decreases file_pages - i,
    {
        proof {
            lemma_chunk(*ph, i as int);
        }
        let length: u64 = if ph.size_in_file < (i + 1) * PAGE_SIZE {
            ph.size_in_file % PAGE_SIZE
        } else {
            PAGE_SIZE
        };
        let position = ph.offset + i * PAGE_SIZE;
        let mut data: Vec<u8> = vec![0u8; length as usize];
        let read_result = file_handle.read_at(data.as_mut_slice(), position);
        assert(read_result is Ok);
        let step = LoadStep::Write { address: VirtualAddress(ph.virtual_address + i * PAGE_SIZE), data };
        let ghost old_steps = steps@;
        steps.push(step);
        proof {
            assert(steps_view(steps@) =~= steps_view(old_steps).push(step@));
            assert(write_steps(content, *ph).take(i + 1) =~= write_steps(content, *ph).take(i as int).push(
                step@,
            ));
        }
        i = i + 1;
    }
    assert(write_steps(content, *ph).take(i as int) =~= write_steps(content, *ph));
    let ghost middle = steps_view(steps@);
    let memory_pages: u64 = (ph.size_in_memory - 1) / PAGE_SIZE + 1;
    let mut j: u64 = file_pages;
    while j < memory_pages
        invariant
            load_sane(*ph),
            ph.segment_type == LOAD_SEGMENT,
            file_pages == pages_in_file(*ph),
            memory_pages == pages_in_memory(*ph),
            file_pages <= j,
            j <= memory_pages || file_pages > memory_pages,
            steps_view(steps@) == middle + map_steps(*ph).take(j - file_pages),
        decreases memory_pages - j,
    {
        proof {
            lemma_page_start(ph.size_in_memory as int, j as int);
        }
        let step = LoadStep::MapPage { address: VirtualAddress(ph.virtual_address + j * PAGE_SIZE) };
        let ghost old_steps = steps@;
        steps.push(step);
        proof {
            assert(steps_view(steps@) =~= steps_view(old_steps).push(step@));
            assert(map_steps(*ph).take(j - file_pages + 1) =~= map_steps(*ph).take(j - file_pages).push(
                step@,
            ));
        }
        j = j + 1;
    }
    assert(map_steps(*ph).take(j - file_pages) =~= map_steps(*ph));
}

/// What placing the segments of the file yields: its program with the
/// segments, loading steps and entry address, or the error.
pub open spec fn spec_load(content: Seq<u8>, h: Header) -> Result<(Seq<Segment>, Seq<StepView>, u64), ElfError> {
    match plan(content, h, h.program_header_entry_num as int) {
        Ok((segments, steps)) => Ok((segments, steps, h.program_entry)),
        Err(e) => Err(e),
    }
}

/// Prepares a new process from the given ELF file: builds its address space
/// from the loadable segments and lists the steps that fill it.
///
/// Fails with `OverlappingSegments` at the first loadable segment that
/// overlaps one before it or reaches beyond the lower half of the address
/// space.
pub fn process_from_elf_file(elf_file: ElfFile) -> (r: Result<LoadedProgram, ElfError>)
    requires
        elf_file.wf(),
        segments_loadable(elf_file.content(), elf_file.header),
    ensures
        r is Ok <==> spec_load(elf_file.content(), elf_file.header) is Ok,
        r matches Ok(p) ==> {
            &&& p.address_space.wf()
            &&& spec_load(elf_file.content(), elf_file.header) == Ok::<(Seq<Segment>, Seq<StepView>, u64), ElfError>(
                (p.address_space.segments@, steps_view(p.steps@), p.entry.0),
            )
        },
        r matches Err(e) ==> spec_load(elf_file.content(), elf_file.header) == Err::<
            (Seq<Segment>, Seq<StepView>, u64),
            ElfError,
        >(e),
{
    let mut file = elf_file;
    let file_size = file.file_handle.len();
    let ghost content = file.content();
    let ghost h = file.header;
    let mut address_space = AddressSpace::new();
    let mut steps: Vec<LoadStep> = Vec::new();
    let mut iterator = file.program_headers();
    assert(steps_view(steps@) =~= Seq::empty());
    assert(address_space.segments@ =~= Seq::empty());
    while iterator.current_header_index < iterator.header_num
        invariant
            file.file_handle.content() == content,
            file.file_handle.length() == file_size,
            content.len() == file_size,
            file.file_handle.start() + file.file_handle.length() <= file.file_handle.image().len(),
            file.file_handle.image().len() <= i64::MAX,
            file.header == h,
            content == elf_file.content(),
            h == elf_file.header,
            program_headers_valid(content, h),
            program_headers_readable(content, h),
            segments_loadable(content, h),
            iterator.header_num == h.program_header_entry_num,
            iterator.header_size == h.program_header_entry_size,
            iterator.header_offset == h.program_header_offset,
            iterator.current_header_index <= iterator.header_num,
            address_space.wf(),
            plan(content, h, iterator.current_header_index as int) == Ok::<
                (Seq<Segment>, Seq<StepView>),
                ElfError,
            >((address_space.segments@, steps_view(steps@))),
        decreases iterator.header_num - iterator.current_header_index,
    {
        let ghost k = iterator.current_header_index as int;
        assert(program_header_at(content, h, k).spec_is_fully_contained(content.len() as u64));
        assert(load_sane(program_header_at(content, h, k)));
        let program_header = iterator.next(&mut file.file_handle).unwrap();
        assert(program_header == program_header_at(content, h, k));
        if program_header.segment_type == LOAD_SEGMENT {
            let flags = segment_page_flags(program_header.flags);
            let segment = Segment::new(
                MemoryArea::new(VirtualAddress(program_header.virtual_address), program_header.size_in_memory),
                flags,
                SegmentType::FromFile,
            );
            assert(segment == spec_segment(program_header));
            if !address_space.add_segment(segment) {
                proof {
                    lemma_plan_err_stays(content, h, k + 1, h.program_header_entry_num as int);
                }
                return Err(ElfError::OverlappingSegments);
            }
            add_segment_steps(&mut file.file_handle, &program_header, &mut steps);
        }
    }
    let entry = VirtualAddress(file.header.program_entry);
    Ok(LoadedProgram { address_space, steps, entry })
}

/// What reading the ELF file with the given name from the initramfs image
/// and placing its segments yields.
pub open spec fn spec_process_from_initramfs(image: Seq<u8>, name: Seq<u8>) -> Result<
    (Seq<Segment>, Seq<StepView>, u64),
    ElfError,
> {
    match spec_from_initramfs(image, name) {
        Err(e) => Err(e),
        Ok((start, length, h)) => spec_load(image.subrange(start as int, start + length), h),
    }
}

/// Every loadable segment of the file with the given name can be placed, if
/// the file is a valid ELF file.
pub open spec fn initramfs_file_loadable(image: Seq<u8>, name: Seq<u8>) -> bool {
    spec_from_initramfs(image, name) matches Ok((start, length, h)) ==> segments_loadable(
        image.subrange(start as int, start + length),
        h,
    )
}

/// Checks that the segment can be placed without going wrong.
pub fn is_load_sane(ph: &ProgramHeader) -> (r: bool)
    ensures
        r == load_sane(*ph),
{
    ph.segment_type != LOAD_SEGMENT || (ph.size_in_memory > 0 && ph.virtual_address <= u64::MAX - ph.size_in_memory
        && ph.size_in_file <= ph.size_in_memory)
}

/// Checks what reading and placing the ELF file with the given name from the
/// initramfs image asks of the image: that reading goes right, and that the
/// segments of a valid file can be placed.
pub fn check_initramfs_file(image: &[u8], name: &str) -> (r: bool)
    ensures
        r == (initramfs_file_readable(image@, name.spec_bytes()) && initramfs_file_loadable(
            image@,
            name.spec_bytes(),
        )),
{
    if image.len() as u64 > i64::MAX as u64 {
        return false;
    }
    if !open_checkable(image, name) {
        return false;
    }
    let mut file_handle = match open(image, name) {
        Ok(fd) => fd,
        Err(_) => {
            return true;
        },
    };
    let file_size = file_handle.len();
    let header = match Header::from_file_handle(&mut file_handle) {
        Ok(h) => h,
        Err(_) => {
            return true;
        },
    };
    let ghost content = file_handle.content();
    assert((header.program_header_entry_num as u64) * (header.program_header_entry_size as u64) <= 0xffff
        * 0xffff) by (nonlinear_arith)
        requires
            header.program_header_entry_num <= 0xffff,
            header.program_header_entry_size <= 0xffff,
    ;
    let table_size = (header.program_header_entry_num as u64) * (header.program_header_entry_size as u64);
    assert(saturating(header.program_header_entry_num * header.program_header_entry_size) == table_size);
    if file_size < header.program_header_offset.saturating_add(table_size) {
        return true;
    }
    let num = header.program_header_entry_num as u64;
    let size = header.program_header_entry_size as u64;
    let mut sane = true;
    let mut i: u64 = 0;
    while i < num
        invariant
            file_handle.image() == image@,
            file_handle.length() == file_size,
            file_handle.content() == content,
            content.len() == file_size,
            content.len() >= table_end(header),
            content.len() <= i64::MAX,
            num == header.program_header_entry_num,
            size == header.program_header_entry_size,
            spec_open(image@, name.spec_bytes()) == Ok::<(u64, u64), FileError>(
                (file_handle.start(), file_handle.length()),
            ),
            spec_header_from_file(content, 0) == Ok::<Header, ElfError>(header),
            image@.len() <= i64::MAX,
            header_in_range(image@),
            spec_initramfs_valid(image@) ==> entries_in_range(image@, 0, find_file(image@, name.spec_bytes(), 0)),
            0 <= i <= num,
            forall|k: int| 0 <= k < i ==> #[trigger] program_header_position(header, k) + PROGRAM_HEADER_SIZE
                <= content.len(),
            forall|k: int| 0 <= k < i ==> #[trigger] program_header_at(content, header, k).spec_is_fully_contained(
                content.len() as u64,
            ),
            sane == forall|k: int| 0 <= k < i ==> load_sane(#[trigger] program_header_at(content, header, k)),
        decreases num - i,
    {
        let ghost k = i as int;
        assert(size * i <= 0xffff * 0xffff) by (nonlinear_arith)
            requires
                size <= 0xffff,
                i < 0xffff + 1,
        ;
        let position = header.program_header_offset + size * i;
        if position > file_size || file_size - position < PROGRAM_HEADER_SIZE {
            proof {
                assert(!(program_header_position(header, k) + PROGRAM_HEADER_SIZE <= content.len()));
                assert(!program_headers_readable(content, header));
            }
            return false;
        }
        let mut buffer: Vec<u8> = vec![0u8; 56];
        let read_result = file_handle.read_at(buffer.as_mut_slice(), position);
        assert(read_result is Ok);
        let program_header = ProgramHeader::from_bytes(buffer.as_slice());
        assert(program_header == program_header_at(content, header, k));
        if !program_header.is_fully_contained(file_size) {
            proof {
                assert(!program_header_at(content, header, k).spec_is_fully_contained(content.len() as u64));
                assert(!program_headers_valid(content, header));
                assert forall|m: int| 0 <= m < header.program_header_entry_num && (forall|j: int|
                    0 <= j < m ==> #[trigger] program_header_at(content, header, j).spec_is_fully_contained(
                        content.len() as u64,
                    )) implies program_header_position(header, m) + PROGRAM_HEADER_SIZE <= content.len() by {
                    if m > k {
                        assert(program_header_at(content, header, k).spec_is_fully_contained(
                            content.len() as u64,
                        ));
                    }
                }
            }
            return true;
        }
        if !is_load_sane(&program_header) {
            sane = false;
        }
        i = i + 1;
    }
    proof {
        assert(program_headers_valid(content, header));
    }
    sane
}

/// Prepares a new process from the ELF file with the given name on the
/// initramfs.
pub fn process_from_initramfs_file(image: &[u8], name: &str) -> (r: Result<LoadedProgram, ElfError>)
    requires
        initramfs_file_readable(image@, name.spec_bytes()),
        initramfs_file_loadable(image@, name.spec_bytes()),
    ensures
        r is Ok <==> spec_process_from_initramfs(image@, name.spec_bytes()) is Ok,
        r matches Ok(p) ==> {
            &&& p.address_space.wf()
            &&& spec_process_from_initramfs(image@, name.spec_bytes()) == Ok::<
                (Seq<Segment>, Seq<StepView>, u64),
                ElfError,
            >((p.address_space.segments@, steps_view(p.steps@), p.entry.0))
        },
        r matches Err(e) ==> spec_process_from_initramfs(image@, name.spec_bytes()) == Err::<
            (Seq<Segment>, Seq<StepView>, u64),
            ElfError,
        >(e),
{
    match ElfFile::from_initramfs(image, name) {
        Ok(file) => process_from_elf_file(file),
        Err(e) => Err(e),
    }
}

} // verus!
