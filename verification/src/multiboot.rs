//! Reading the multiboot information structure that the boot loader hands
//! over.
//!
//! The architecture code copies the structure, the memory map and the
//! module list out of physical memory; the functions here read them.

use vstd::prelude::*;
use crate::elf::{le_at, read_le};
use crate::memory::{MemoryArea, PhysicalAddress, VirtualAddress, KERNEL_OFFSET};
use crate::vga_buffer::Info;
use crate::initramfs::str_from_utf8;
use vstd::utf8::valid_utf8;
use vstd::string::StringSliceAdditionalSpecFns;

verus! {

/// Basic memory information is available.
pub const BASIC_MEMORY: u32 = 1;

/// Boot device information is available.
pub const BOOT_DEVICE: u32 = 2;

/// A command line is available.
pub const CMDLINE: u32 = 4;

/// Module information is available.
pub const MODULES: u32 = 8;

/// a.out information is available.
pub const A_OUT: u32 = 16;

/// ELF information is available.
pub const ELF: u32 = 32;

/// A memory map is available.
pub const MMAP: u32 = 64;

/// Information about drives is available.
pub const DRIVES: u32 = 128;

/// A config table is available.
pub const CONFIG_TABLE: u32 = 256;

/// The boot loader name is available.
pub const BOOT_LOADER_NAME: u32 = 512;

/// An APM table is available.
pub const APM_TABLE: u32 = 1024;

/// VBE information is available.
pub const VBE: u32 = 2048;

/// All the flags defined.
pub const MULTIBOOT_FLAGS_ALL: u32 = 4095;

/// The size of a module entry.
pub const MODULE_ENTRY_SIZE: u64 = 16;

/// Returns the known flags of the multiboot structure's flags field.
pub fn get_flags(flags: u32) -> (r: u32)
    ensures
        r == flags & MULTIBOOT_FLAGS_ALL,
{
    flags & MULTIBOOT_FLAGS_ALL
}

/// Checks the flags of a kernel loaded as an ELF file: the boot loader
/// must not claim both a.out and ELF symbol information.
pub fn flags_consistent(flags: u32) -> (r: bool)
    ensures
        r == (get_flags_spec(flags) & (A_OUT | ELF) != (A_OUT | ELF)),
{
    get_flags(flags) & (A_OUT | ELF) != (A_OUT | ELF)
}

/// The known flags of the flags field.
pub open spec fn get_flags_spec(flags: u32) -> u32 {
    flags & MULTIBOOT_FLAGS_ALL
}

/// The index of the first NUL byte of `bytes` from `k` on, or the length
/// of `bytes` if there is none.
pub open spec fn nul_index(bytes: Seq<u8>, k: int) -> int
    decreases bytes.len() - k,
{
    if k < 0 || k >= bytes.len() {
        bytes.len() as int
    } else if bytes[k] == 0 {
        k
    } else {
        nul_index(bytes, k + 1)
    }
}

/// The C string at the start of `bytes`: the bytes before the first NUL.
pub open spec fn c_string(bytes: Seq<u8>) -> Seq<u8> {
    bytes.subrange(0, nul_index(bytes, 0))
}

/// The bytes hold a C string that is valid UTF-8: a NUL byte ends it and
/// the bytes before it are well-formed UTF-8.
pub open spec fn c_string_readable(bytes: Seq<u8>) -> bool {
    nul_index(bytes, 0) < bytes.len() && valid_utf8(c_string(bytes))
}

proof fn lemma_nul_index(bytes: Seq<u8>, k: int)
    requires
        0 <= k <= bytes.len(),
    ensures
        k <= nul_index(bytes, k) <= bytes.len(),
        nul_index(bytes, k) < bytes.len() ==> bytes[nul_index(bytes, k)] == 0,
        forall|j: int| k <= j < nul_index(bytes, k) ==> bytes[j] != 0,
    decreases bytes.len() - k,
{
    if k < bytes.len() && bytes[k] != 0 {
        lemma_nul_index(bytes, k + 1);
    }
}

/// Returns the index of the first NUL byte of `bytes`, if there is one.
pub fn c_string_length(bytes: &[u8]) -> (r: Option<usize>)
    ensures
        r matches Some(n) ==> n == nul_index(bytes@, 0) && n < bytes@.len(),
        r is None <==> nul_index(bytes@, 0) == bytes@.len(),
{
    proof {
        lemma_nul_index(bytes@, 0);
    }
    let n = bytes.len();
    let mut i: usize = 0;
    while i < n
        invariant
            n == bytes@.len(),
            0 <= i <= n,
            nul_index(bytes@, 0) == nul_index(bytes@, i as int),
        decreases n - i,
    {
        if bytes[i] == 0 {
            return Some(i);
        }
        i = i + 1;
    }
    None
}

/// Reads the C string at the start of `bytes`: the bytes before the first
/// NUL byte, as a string slice, if there is a NUL byte and the bytes before
/// it are valid UTF-8.
pub fn read_c_string(bytes: &[u8]) -> (r: Option<&str>)
    ensures
        r is Some <==> c_string_readable(bytes@),
        r matches Some(s) ==> s.spec_bytes() == c_string(bytes@),
{
    match c_string_length(bytes) {
        Some(n) => {
            let text = &bytes[0..n];
            assert(text@ == c_string(bytes@));
            str_from_utf8(text)
        },
        None => None,
    }
}

/// Returns the name of the boot loader: the C string it left at the
/// address in the information structure, if its flag is set, else a
/// general one.
///
/// `name_memory` holds the bytes from that address on; the name must end
/// in a NUL byte there and be valid UTF-8.
pub fn get_bootloader_name<'a>(flags: u32, name_memory: &'a [u8]) -> (r: &'a str)
    requires
        get_flags_spec(flags) & BOOT_LOADER_NAME == BOOT_LOADER_NAME ==> c_string_readable(name_memory@),
    ensures
        get_flags_spec(flags) & BOOT_LOADER_NAME == BOOT_LOADER_NAME ==> r.spec_bytes() == c_string(
            name_memory@,
        ),
        get_flags_spec(flags) & BOOT_LOADER_NAME != BOOT_LOADER_NAME ==> r@ == "a multiboot compliant bootloader"@,
{
    if get_flags(flags) & BOOT_LOADER_NAME == BOOT_LOADER_NAME {
        read_c_string(name_memory).unwrap()
    } else {
        "a multiboot compliant bootloader"
    }
}

/// A module entry: the start and end addresses of a module loaded by the
/// boot loader.
#[derive(Clone, Copy, Debug, PartialEq, Eq, Structural)]
pub struct ModuleEntry {
    /// The start address of the module.
    pub mod_start: u32,
    /// The end address of the module.
    pub mod_end: u32,
    /// The address of the string associated with the module.
    pub string: u32,
}

/// Module entry `i` of a module list.
pub open spec fn spec_module_entry(list: Seq<u8>, i: int) -> ModuleEntry {
    ModuleEntry {
        mod_start: le_at(list, MODULE_ENTRY_SIZE * i, 4) as u32,
        mod_end: le_at(list, MODULE_ENTRY_SIZE * i + 4, 4) as u32,
        string: le_at(list, MODULE_ENTRY_SIZE * i + 8, 4) as u32,
    }
}

/// Reads module entry `i` of a module list.
pub fn module_entry(list: &[u8], i: usize) -> (r: ModuleEntry)
    requires
        MODULE_ENTRY_SIZE * i + MODULE_ENTRY_SIZE <= list@.len(),
    ensures
        r == spec_module_entry(list@, i as int),
{
    let len = list.len();
    assert(16 * i + 16 <= len);
    let offset = 16 * i;
    ModuleEntry {
        mod_start: read_le(list, offset, 4) as u32,
        mod_end: read_le(list, offset + 4, 4) as u32,
        string: read_le(list, offset + 8, 4) as u32,
    }
}

/// The bytes of the name of the initramfs module: "initramfs".
pub open spec fn initramfs_module_name() -> Seq<u8> {
    seq![105u8, 110u8, 105u8, 116u8, 114u8, 97u8, 109u8, 102u8, 115u8]
}

/// Returns the index of the first module whose name is "initramfs", if
/// there is one.
pub fn find_initramfs_module(names: &Vec<Vec<u8>>) -> (r: Option<usize>)
    ensures
        r matches Some(i) ==> i < names@.len() && names@[i as int]@ == initramfs_module_name() && forall|j: int|
            0 <= j < i ==> #[trigger] names@[j]@ != initramfs_module_name(),
        r is None ==> forall|j: int| 0 <= j < names@.len() ==> #[trigger] names@[j]@ != initramfs_module_name(),
{
    let wanted_bytes: Vec<u8> = vec![105u8, 110, 105, 116, 114, 97, 109, 102, 115];
    let wanted = wanted_bytes.as_slice();
    assert(wanted@ =~= initramfs_module_name());
    let n = names.len();
    let mut i: usize = 0;
    while i < n
        invariant
            n == names@.len(),
            0 <= i <= n,
            wanted@ == initramfs_module_name(),
            forall|j: int| 0 <= j < i ==> #[trigger] names@[j]@ != initramfs_module_name(),
        decreases n - i,
    {
        if crate::initramfs::bytes_equal(names[i].as_slice(), wanted) {
            return Some(i);
        }
        i = i + 1;
    }
    None
}

/// Returns the memory area of the initramfs module.
pub fn get_initramfs_area(module_entry: ModuleEntry) -> (r: MemoryArea<PhysicalAddress>)
    ensures
        r.start_address.0 == module_entry.mod_start,
        r.length == if module_entry.mod_start > module_entry.mod_end {
            module_entry.mod_start - module_entry.mod_end
        } else {
            module_entry.mod_end - module_entry.mod_start
        },
{
    MemoryArea::from_start_and_end(
        PhysicalAddress(module_entry.mod_start as u64),
        PhysicalAddress(module_entry.mod_end as u64),
    )
}

/// The size field of the memory map entry at `offset`.
pub open spec fn entry_size(map: Seq<u8>, offset: int) -> u64 {
    le_at(map, offset, 4)
}

/// The memory map entry at `offset` is of usable memory.
pub open spec fn entry_usable(map: Seq<u8>, offset: int) -> bool {
    le_at(map, offset + 20, 4) == 1
}

/// The memory area the memory map entry at `offset` describes.
pub open spec fn entry_area(map: Seq<u8>, offset: int) -> MemoryArea<PhysicalAddress> {
    MemoryArea { start_address: PhysicalAddress(le_at(map, offset + 4, 8)), length: le_at(map, offset + 12, 8) }
}

/// The offset of the entry after the one at `offset`.
pub open spec fn next_entry(map: Seq<u8>, offset: int) -> int {
    offset + 4 + entry_size(map, offset)
}

/// The offset of the first usable entry from `offset` on, or `max` if
/// there is none before the end of the map at `max`.
pub open spec fn next_usable(map: Seq<u8>, max: int, offset: int) -> int
    decreases max - offset,
{
    if offset < 0 || offset >= max {
        max
    } else if entry_usable(map, offset) {
        offset
    } else if next_entry(map, offset) >= max {
        max
    } else {
        next_usable(map, max, next_entry(map, offset))
    }
}

/// Provides an iteration over the usable areas of the memory map.
pub struct MemoryMapIterator {
    /// The offset of the current entry in the memory map.
    pub address: u64,
    /// The offset after the last entry in the memory map.
    pub max_address: u64,
}

impl MemoryMapIterator {
    /// Creates an iteration over the memory map of the given length, if the
    /// flags announce a memory map.
    pub fn new(flags: u32, mmap_length: u32) -> (r: MemoryMapIterator)
        ensures
            r.address == 0,
            get_flags_spec(flags) & MMAP == MMAP ==> r.max_address == mmap_length,
            get_flags_spec(flags) & MMAP != MMAP ==> r.max_address == 0,
    {
        if get_flags(flags) & MMAP == MMAP {
            MemoryMapIterator { address: 0, max_address: mmap_length as u64 }
        } else {
            MemoryMapIterator { address: 0, max_address: 0 }
        }
    }

    /// Returns the next usable memory area of the map.
    ///
    /// `memory` holds the map and the bytes after it: every entry that
    /// starts before the end of the map is read whole, even one that
    /// reaches past that end.
    pub fn next(&mut self, memory: &[u8]) -> (r: Option<MemoryArea<PhysicalAddress>>)
        requires
            old(self).max_address <= u32::MAX,
            old(self).max_address + 23 <= memory@.len(),
        ensures
            final(self).max_address == old(self).max_address,
            ({
                let max = old(self).max_address as int;
                let found = next_usable(memory@, max, old(self).address as int);
                &&& found < max ==> r == Some(entry_area(memory@, found)) && final(self).address == next_entry(
                    memory@,
                    found,
                )
                &&& found >= max ==> r is None && final(self).address >= max
            }),
    {
        let len = memory.len();
        loop
            invariant
                self.max_address == old(self).max_address,
                self.max_address <= u32::MAX,
                len == memory@.len(),
                self.max_address + 23 <= len,
                next_usable(memory@, self.max_address as int, self.address as int) == next_usable(
                    memory@,
                    self.max_address as int,
                    old(self).address as int,
                ),
            decreases self.max_address - self.address,
        {
            if self.address >= self.max_address {
                return None;
            }
            let offset = self.address as usize;
            let size = read_le(memory, offset, 4);
            proof {
                crate::elf::lemma_le_fold_bound(memory@.subrange(offset as int, offset + 4), 4);
            }
            let mem_type = read_le(memory, offset + 20, 4);
            let next = self.address + 4 + size;
            self.address = next;
            if mem_type == 1 {
                let base = read_le(memory, offset + 4, 8);
                let length = read_le(memory, offset + 12, 8);
                return Some(MemoryArea::new(PhysicalAddress(base), length));
            }
            if next >= self.max_address {
                return None;
            }
        }
    }
}

/// An entry of version 0 of a multiboot2 memory map.
#[derive(Clone, Copy, Debug, PartialEq, Eq, Structural)]
pub struct MemoryMapEntryVersion0 {
    /// The base address of the memory area.
    pub base_addr: u64,
    /// The length of the memory area.
    pub length: u64,
    /// The type of memory in the area.
    pub memory_type: u32,
}

/// The entry of version 0 at `offset` of a multiboot2 memory map tag.
pub open spec fn spec_entry_version0(tag: Seq<u8>, offset: int) -> MemoryMapEntryVersion0 {
    MemoryMapEntryVersion0 {
        base_addr: le_at(tag, offset, 8),
        length: le_at(tag, offset + 8, 8),
        memory_type: le_at(tag, offset + 16, 4) as u32,
    }
}

/// An iteration over the entries of a multiboot2 memory map tag: its size
/// at offset 4, the size of an entry at offset 8, the entries from offset
/// 16 on.
pub struct MemoryMapEntryVersion0Iterator {
    /// The offset of the current entry in the tag.
    pub current_address: u64,
}

impl MemoryMapEntryVersion0Iterator {
    /// Creates an iteration that starts at the first entry.
    pub fn new() -> (r: MemoryMapEntryVersion0Iterator)
        ensures
            r.current_address == 16,
    {
        MemoryMapEntryVersion0Iterator { current_address: 16 }
    }

    /// Returns the next entry of the tag, if it starts before the end that
    /// the tag's size gives; such an entry is read whole.
    pub fn next(&mut self, tag: &[u8]) -> (r: Option<MemoryMapEntryVersion0>)
        requires
            tag@.len() >= 16,
            tag@.len() <= u32::MAX,
            le_at(tag@, 4, 4) + 23 <= tag@.len(),
            old(self).current_address <= u32::MAX,
        ensures
            ({
                let size = le_at(tag@, 4, 4);
                let entry_size = le_at(tag@, 8, 4);
                let at = old(self).current_address;
                &&& at < size ==> r == Some(spec_entry_version0(tag@, at as int)) && final(self).current_address
                    == at + entry_size
                &&& at >= size ==> r is None && final(self).current_address == at
            }),
    {
        let size = read_le(tag, 4, 4);
        let entry_size = read_le(tag, 8, 4);
        proof {
            crate::elf::lemma_le_fold_bound(tag@.subrange(8, 12), 4);
            crate::elf::lemma_le_fold_bound(tag@.subrange(4, 8), 4);
        }
        if self.current_address < size {
            let offset = self.current_address as usize;
            let entry = MemoryMapEntryVersion0 {
                base_addr: read_le(tag, offset, 8),
                length: read_le(tag, offset + 8, 8),
                memory_type: read_le(tag, offset + 16, 4) as u32,
            };
            self.current_address = self.current_address + entry_size;
            Some(entry)
        } else {
            None
        }
    }
}

/// Returns the iteration over the usable areas of the memory map.
pub fn get_memory_map(flags: u32, mmap_length: u32) -> (r: MemoryMapIterator)
    ensures
        r.address == 0,
        get_flags_spec(flags) & MMAP == MMAP ==> r.max_address == mmap_length,
        get_flags_spec(flags) & MMAP != MMAP ==> r.max_address == 0,
{
    MemoryMapIterator::new(flags, mmap_length)
}

/// The framebuffer information tag.
#[derive(Clone, Copy, Debug, PartialEq, Eq, Structural)]
pub struct FramebufferInfo {
    /// The physical address of the framebuffer.
    pub framebuffer_addr: u64,
    /// The width of the framebuffer.
    pub framebuffer_width: u32,
    /// The height of the framebuffer.
    pub framebuffer_height: u32,
}

/// Returns the VGA buffer information: from the framebuffer tag, if the
/// boot loader gave one, else the text mode default of 80 by 25 at 0xb8000.
pub fn get_vga_info(framebuffer: Option<FramebufferInfo>) -> (r: Info)
    requires
        framebuffer matches Some(f) ==> f.framebuffer_addr + KERNEL_OFFSET <= u64::MAX,
    ensures
        framebuffer matches Some(f) ==> r.width == f.framebuffer_width && r.height == f.framebuffer_height
            && r.address == f.framebuffer_addr + KERNEL_OFFSET,
        framebuffer is None ==> r.width == 80 && r.height == 25 && r.address == 0xb8000 + KERNEL_OFFSET,
{
    match framebuffer {
        Some(f) => Info {
            height: f.framebuffer_height as u64,
            width: f.framebuffer_width as u64,
            address: PhysicalAddress(f.framebuffer_addr).to_virtual().0,
        },
        None => Info { height: 25, width: 80, address: PhysicalAddress(0xb8000).to_virtual().0 },
    }
}

} // verus!
