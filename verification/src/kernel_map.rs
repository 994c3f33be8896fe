//! The pages the kernel maps at boot: its sections, the VGA buffer, its
//! stack and the initramfs.
//!
//! The functions here say which page goes to which frame with which page
//! table entry flags; the architecture code enters the mappings into the
//! page tables.

use vstd::prelude::*;
use crate::memory::{PageFlags, PhysicalAddress, KERNEL_OFFSET, PAGE_SIZE, READABLE};
use crate::paging::{
    align_down, convert_flags, spec_convert_flags, PageFrame, ENTRY_GLOBAL, ENTRY_NO_EXECUTE, ENTRY_PRESENT, ENTRY_WRITABLE,
};

verus! {

/// The top of the stack after the kernel has been remapped.
pub const FINAL_STACK_TOP: u64 = 0xfffffe8000000000;

/// The area where the initramfs is mapped.
pub const INITRAMFS_MAP_AREA_START: u64 = 0xffff800000000000 + 512 * 512 * 512;

/// The physical address of the VGA text buffer.
pub const VGA_BUFFER_ADDRESS: u64 = 0xb8000;

/// The entry flags of the text section: shared by all address spaces,
/// read-only and executable.
pub const TEXT_FLAGS: u64 = ENTRY_GLOBAL;

/// The entry flags of the read-only data: shared, read-only and not
/// executable.
pub const RODATA_FLAGS: u64 = ENTRY_GLOBAL | ENTRY_NO_EXECUTE;

/// The entry flags of data, bss, the VGA buffer and the stack: shared,
/// writable and not executable.
pub const DATA_FLAGS: u64 = ENTRY_WRITABLE | ENTRY_GLOBAL | ENTRY_NO_EXECUTE;

/// The kernel's sections are protected as their contents call for: every
/// page is present and shared by all address spaces; the text can be
/// executed but not written; the read-only data can be neither written nor
/// executed; data, bss, the VGA buffer and the stack can be written but not
/// executed; none is user accessible.
pub proof fn lemma_section_flags()
    ensures
        (TEXT_FLAGS | ENTRY_PRESENT) == 0x101u64,
        (RODATA_FLAGS | ENTRY_PRESENT) == 0x8000_0000_0000_0101u64,
        (DATA_FLAGS | ENTRY_PRESENT) == 0x8000_0000_0000_0103u64,
        (TEXT_FLAGS | ENTRY_PRESENT) & 2 == 0 && (TEXT_FLAGS | ENTRY_PRESENT) & 0x8000_0000_0000_0000 == 0,
        (RODATA_FLAGS | ENTRY_PRESENT) & 2 == 0 && (RODATA_FLAGS | ENTRY_PRESENT) & 0x8000_0000_0000_0000 != 0,
        (DATA_FLAGS | ENTRY_PRESENT) & 2 != 0 && (DATA_FLAGS | ENTRY_PRESENT) & 0x8000_0000_0000_0000 != 0,
{
    assert(256u64 | 1u64 == 0x101u64) by (bit_vector);
    assert((256u64 | 0x8000_0000_0000_0000u64) | 1u64 == 0x8000_0000_0000_0101u64) by (bit_vector);
    assert(((2u64 | 256u64) | 0x8000_0000_0000_0000u64) | 1u64 == 0x8000_0000_0000_0103u64) by (bit_vector);
    assert(0x101u64 & 2 == 0 && 0x101u64 & 0x8000_0000_0000_0000 == 0) by (bit_vector);
    assert(0x8000_0000_0000_0101u64 & 2 == 0 && 0x8000_0000_0000_0101u64 & 0x8000_0000_0000_0000 != 0)
        by (bit_vector);
    assert(0x8000_0000_0000_0103u64 & 2 != 0 && 0x8000_0000_0000_0103u64 & 0x8000_0000_0000_0000 != 0)
        by (bit_vector);
}

/// A mapping of a page to a frame.
#[derive(Clone, Copy, Debug, PartialEq, Eq, Structural)]
pub struct PageMapping {
    /// The virtual address of the page.
    pub page: u64,
    /// The physical address of the frame.
    pub frame: u64,
    /// The flags of the page table entry, the present bit included.
    pub flags: u64,
}

/// `count` mappings of consecutive pages from `first_page` to consecutive
/// frames from `first_frame`, all with the same entry flags.
pub open spec fn spec_page_mappings(count: nat, first_page: int, first_frame: int, flags: u64) -> Seq<
    PageMapping,
> {
    Seq::new(
        count,
        |i: int|
            PageMapping {
                page: (first_page + i * PAGE_SIZE) as u64,
                frame: (first_frame + i * PAGE_SIZE) as u64,
                flags,
            },
    )
}

/// The mappings of a kernel section of `size` bytes at the physical address
/// `start`: each of its whole pages is seen at its address plus the kernel
/// offset, present and with the given flags.
pub open spec fn spec_section(size: u64, start: u64, flags: u64) -> Seq<PageMapping> {
    spec_page_mappings((size / PAGE_SIZE) as nat, start + KERNEL_OFFSET, start as int, flags | ENTRY_PRESENT)
}

/// The mappings of the initial kernel stack, from its bottom up to its
/// top, so that its top lies at `FINAL_STACK_TOP`.
pub open spec fn spec_stack(stack_bottom: u64, stack_top: u64) -> Seq<PageMapping> {
    spec_page_mappings(
        ((stack_top - stack_bottom) / PAGE_SIZE as int) as nat,
        FINAL_STACK_TOP - (stack_top - stack_bottom),
        stack_bottom as int,
        DATA_FLAGS | ENTRY_PRESENT,
    )
}

/// Where the kernel's sections and its initial stack lie in physical
/// memory.
#[derive(Clone, Copy, Debug, PartialEq, Eq, Structural)]
pub struct KernelLayout {
    /// The start of the text section.
    pub text_start: u64,
    /// The start of the read-only data section.
    pub rodata_start: u64,
    /// The start of the data section.
    pub data_start: u64,
    /// The start of the bss section.
    pub bss_start: u64,
    /// The end of the bss section.
    pub bss_end: u64,
    /// The bottom of the initial stack.
    pub stack_bottom: u64,
    /// The top of the initial stack.
    pub stack_top: u64,
    /// The level 4 table of the boot page tables.
    pub l4_table: u64,
    /// The level 3 table of the boot page tables.
    pub l3_table: u64,
    /// The level 2 table of the boot page tables.
    pub l2_table: u64,
    /// The level 2 table of the boot stack's mapping.
    pub stack_l2_table: u64,
    /// The level 1 table of the boot stack's mapping.
    pub stack_l1_table: u64,
}

/// The frames of the boot page tables, which are unused once the kernel is
/// remapped: the frames holding each of the five tables.
pub open spec fn spec_boot_table_frames(l: KernelLayout) -> Seq<u64> {
    seq![
        align_down(l.l4_table),
        align_down(l.l3_table),
        align_down(l.l2_table),
        align_down(l.stack_l2_table),
        align_down(l.stack_l1_table),
    ]
}

/// The sections follow each other in memory, end below the kernel offset's
/// reach, and the stack fits below `FINAL_STACK_TOP`.
pub open spec fn layout_valid(l: KernelLayout) -> bool {
    &&& l.text_start <= l.rodata_start <= l.data_start <= l.bss_start <= l.bss_end
    &&& l.bss_end + KERNEL_OFFSET <= u64::MAX
    &&& l.stack_bottom <= l.stack_top
    &&& l.stack_top - l.stack_bottom <= FINAL_STACK_TOP
}

/// All the mappings of the remapped kernel: text, read-only data, data and
/// bss each with their own flags, then the VGA buffer, then the stack.
pub open spec fn spec_remap_kernel(l: KernelLayout) -> Seq<PageMapping> {
    spec_section((l.rodata_start - l.text_start) as u64, l.text_start, TEXT_FLAGS) + spec_section(
        (l.data_start - l.rodata_start) as u64,
        l.rodata_start,
        RODATA_FLAGS,
    ) + spec_section((l.bss_start - l.data_start) as u64, l.data_start, DATA_FLAGS) + spec_section(
        (l.bss_end - l.bss_start) as u64,
        l.bss_start,
        DATA_FLAGS,
    ) + seq![
        PageMapping {
            page: (VGA_BUFFER_ADDRESS + KERNEL_OFFSET) as u64,
            frame: VGA_BUFFER_ADDRESS,
            flags: DATA_FLAGS | ENTRY_PRESENT,
        },
    ] + spec_stack(l.stack_bottom, l.stack_top)
}

/// Appends `count` mappings of consecutive pages from `first_page` to
/// consecutive frames from `first_frame`, all with the given flags.
pub fn push_mappings(
    mappings: &mut Vec<PageMapping>,
    count: u64,
    first_page: u64,
    first_frame: u64,
    flags: u64,
)
    requires
        first_page + count * PAGE_SIZE <= u64::MAX + 1,
        first_frame + count * PAGE_SIZE <= u64::MAX + 1,
    ensures
        final(mappings)@ == old(mappings)@ + spec_page_mappings(
            count as nat,
            first_page as int,
            first_frame as int,
            flags,
        ),
{
    let ghost before = mappings@;
    let mut i: u64 = 0;
    while i < count
        invariant
            first_page + count * PAGE_SIZE <= u64::MAX + 1,
            first_frame + count * PAGE_SIZE <= u64::MAX + 1,
            0 <= i <= count,
            mappings@ =~= before + spec_page_mappings(i as nat, first_page as int, first_frame as int, flags),
        decreases count - i,
    {
        assert(i * PAGE_SIZE + PAGE_SIZE <= count * PAGE_SIZE) by (nonlinear_arith)
            requires
                i < count,
        ;
        let mapping = PageMapping {
            page: first_page + i * PAGE_SIZE,
            frame: first_frame + i * PAGE_SIZE,
            flags,
        };
        mappings.push(mapping);
        assert(spec_page_mappings((i + 1) as nat, first_page as int, first_frame as int, flags) =~= spec_page_mappings(
            i as nat,
            first_page as int,
            first_frame as int,
            flags,
        ).push(mapping));
        i = i + 1;
    }
}

/// Returns `count` mappings of consecutive pages from `first_page` to
/// consecutive frames from `first_frame`, all with the given flags.
pub fn page_mappings(count: u64, first_page: u64, first_frame: u64, flags: u64) -> (r: Vec<PageMapping>)
    requires
        first_page + count * PAGE_SIZE <= u64::MAX + 1,
        first_frame + count * PAGE_SIZE <= u64::MAX + 1,
    ensures
        r@ == spec_page_mappings(count as nat, first_page as int, first_frame as int, flags),
{
    let mut mappings: Vec<PageMapping> = Vec::new();
    push_mappings(&mut mappings, count, first_page, first_frame, flags);
    assert(mappings@ =~= spec_page_mappings(count as nat, first_page as int, first_frame as int, flags));
    mappings
}

/// Appends the mappings of a kernel section of the given size at the given
/// physical address: each of its whole pages is seen at its address plus
/// the kernel offset, present and with the given flags.
fn push_section(mappings: &mut Vec<PageMapping>, size: u64, start: u64, flags: u64)
    requires
        start + size + KERNEL_OFFSET <= u64::MAX,
    ensures
        final(mappings)@ == old(mappings)@ + spec_section(size, start, flags),
{
    let count = size / PAGE_SIZE;
    assert(count * PAGE_SIZE <= size) by (nonlinear_arith)
        requires
            count == size / 4096,
    ;
    push_mappings(mappings, count, start + KERNEL_OFFSET, start, flags | ENTRY_PRESENT);
}

/// Returns the mappings of a kernel section of the given size at the given
/// physical address: each of its whole pages is seen at its address plus
/// the kernel offset, present and with the given flags.
pub fn map_section(size: u64, start: u64, flags: u64) -> (r: Vec<PageMapping>)
    requires
        start + size + KERNEL_OFFSET <= u64::MAX,
    ensures
        r@ == spec_section(size, start, flags),
{
    let mut mappings: Vec<PageMapping> = Vec::new();
    push_section(&mut mappings, size, start, flags);
    assert(mappings@ =~= spec_section(size, start, flags));
    mappings
}

/// Appends the mappings of the initial kernel stack.
fn push_stack(mappings: &mut Vec<PageMapping>, stack_bottom: u64, stack_top: u64)
    requires
        stack_bottom <= stack_top,
        stack_top - stack_bottom <= FINAL_STACK_TOP,
    ensures
        final(mappings)@ == old(mappings)@ + spec_stack(stack_bottom, stack_top),
{
    let stack_size = stack_top - stack_bottom;
    let count = stack_size / PAGE_SIZE;
    assert(count * PAGE_SIZE <= stack_size) by (nonlinear_arith)
        requires
            count == stack_size / 4096,
    ;
    push_mappings(mappings, count, FINAL_STACK_TOP - stack_size, stack_bottom, DATA_FLAGS | ENTRY_PRESENT);
}

/// Returns the mappings of the initial kernel stack, from its bottom up to
/// its top, so that its top lies at `FINAL_STACK_TOP`: present, writable,
/// shared and not executable.
pub fn map_stack(stack_bottom: u64, stack_top: u64) -> (r: Vec<PageMapping>)
    requires
        stack_bottom <= stack_top,
        stack_top - stack_bottom <= FINAL_STACK_TOP,
    ensures
        r@ == spec_stack(stack_bottom, stack_top),
{
    let mut mappings: Vec<PageMapping> = Vec::new();
    push_stack(&mut mappings, stack_bottom, stack_top);
    assert(mappings@ =~= spec_stack(stack_bottom, stack_top));
    mappings
}

/// Returns all the mappings of the remapped kernel: each section with its
/// own flags (text executable and read-only, read-only data neither
/// writable nor executable, data and bss writable but not executable), the
/// VGA buffer, and the stack; and the frames of the boot page tables, to
/// be given back to the frame allocator once the new tables are in use.
pub fn remap_kernel(layout: KernelLayout) -> (r: (Vec<PageMapping>, Vec<u64>))
    requires
        layout_valid(layout),
    ensures
        r.0@ == spec_remap_kernel(layout),
        r.1@ == spec_boot_table_frames(layout),
{
    let mut mappings: Vec<PageMapping> = Vec::new();
    push_section(&mut mappings, layout.rodata_start - layout.text_start, layout.text_start, TEXT_FLAGS);
    push_section(&mut mappings, layout.data_start - layout.rodata_start, layout.rodata_start, RODATA_FLAGS);
    push_section(&mut mappings, layout.bss_start - layout.data_start, layout.data_start, DATA_FLAGS);
    push_section(&mut mappings, layout.bss_end - layout.bss_start, layout.bss_start, DATA_FLAGS);
    let vga = PageMapping {
        page: VGA_BUFFER_ADDRESS + KERNEL_OFFSET,
        frame: VGA_BUFFER_ADDRESS,
        flags: DATA_FLAGS | ENTRY_PRESENT,
    };
    mappings.push(vga);
    push_stack(&mut mappings, layout.stack_bottom, layout.stack_top);
    assert(mappings@ =~= spec_remap_kernel(layout));
    let mut frames: Vec<u64> = Vec::new();
    frames.push(PageFrame::from_address(PhysicalAddress(layout.l4_table)).0);
    frames.push(PageFrame::from_address(PhysicalAddress(layout.l3_table)).0);
    frames.push(PageFrame::from_address(PhysicalAddress(layout.l2_table)).0);
    frames.push(PageFrame::from_address(PhysicalAddress(layout.stack_l2_table)).0);
    frames.push(PageFrame::from_address(PhysicalAddress(layout.stack_l1_table)).0);
    assert(frames@ =~= spec_boot_table_frames(layout));
    (mappings, frames)
}

/// Returns the mappings of the initramfs that lies at `start` in physical
/// memory and is `length` bytes long: every page it touches, from the page
/// of its start on, into the initramfs map area, readable only.
pub fn map_initramfs(start: u64, length: u64) -> (r: Vec<PageMapping>)
    requires
        start + length + PAGE_SIZE <= u64::MAX,
        INITRAMFS_MAP_AREA_START + length + PAGE_SIZE <= u64::MAX,
    ensures
        length == 0 ==> r@.len() == 0,
        length > 0 ==> r@ == spec_page_mappings(
            ((length - 1) / PAGE_SIZE as int + 1) as nat,
            INITRAMFS_MAP_AREA_START as int,
            start as int,
            spec_convert_flags(PageFlags { bits: READABLE }),
        ),
{
    if length > 0 {
        let count = (length - 1) / PAGE_SIZE + 1;
        assert(count * PAGE_SIZE <= length + PAGE_SIZE) by (nonlinear_arith)
            requires
                count == (length - 1) / 4096 + 1,
                length > 0,
        ;
        let flags = convert_flags(PageFlags { bits: READABLE });
        page_mappings(count, INITRAMFS_MAP_AREA_START, start, flags.bits)
    } else {
        Vec::new()
    }
}

/// Returns the address at which the kernel sees the initramfs that starts
/// at the given physical address: in the map area, at the same offset
/// within the page.
pub fn initramfs_start(physical_start: u64) -> (r: u64)
    ensures
        r == INITRAMFS_MAP_AREA_START + physical_start % PAGE_SIZE,
{
    INITRAMFS_MAP_AREA_START + physical_start % PAGE_SIZE
}

} // verus!
