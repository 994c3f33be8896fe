//! Address spaces as lists of segments.

use vstd::prelude::*;
use crate::free_list::FrameAllocator;
use crate::memory::{
    is_userspace_address, MemoryArea, PageFlags, VirtualAddress, PAGE_SIZE, USER_ACCESSIBLE,
    VIRTUAL_LOW_MAX_ADDRESS,
};
use crate::page_table::{
    chunk_page, frames_allocated, read_virtual, table_wf, unmapped_pages, AddressSpaceManager, PageTableEntry,
    PhysicalMemory,
};
use crate::paging::{align_down, pages_touched, spec_convert_flags, PageFrame};

verus! {

/// All types of segments that are possible.
#[derive(Clone, Copy, Debug, PartialEq, Eq, Structural)]
pub enum SegmentType {
    /// The content of the segment was read from a file.
    FromFile,
    /// The content of the segment is only in memory.
    MemoryOnly,
}

/// Represents a segment of memory in the address space.
#[derive(Clone, Copy)]
pub struct Segment {
    /// The memory area of the segment.
    pub memory_area: MemoryArea<VirtualAddress>,
    /// The flags this segment is mapped with.
    pub flags: PageFlags,
    /// The type of the segment.
    pub segment_type: SegmentType,
}

/// The segments share an address: one contains the start of the other.
pub open spec fn segments_overlap(a: Segment, b: Segment) -> bool {
    a.memory_area.spec_contains(b.memory_area.start()) || b.memory_area.spec_contains(a.memory_area.start())
}

impl Segment {
    /// Creates a new segment with the given parameters.
    pub fn new(memory_area: MemoryArea<VirtualAddress>, flags: PageFlags, segment_type: SegmentType) -> (r: Segment)
        ensures
            r.memory_area == memory_area,
            r.flags == flags,
            r.segment_type == segment_type,
    {
        Segment { memory_area, flags, segment_type }
    }

    /// Returns true if the intersection of the segments is not empty.
    pub fn overlaps(&self, other: &Segment) -> (r: bool)
        requires
            self.memory_area.fits(),
            other.memory_area.fits(),
        ensures
            r == segments_overlap(*self, *other),
    {
        self.memory_area.overlaps_with(other.memory_area)
    }

    /// Checks whether this segment contains the given memory area.
    pub fn contains_area(&self, area: MemoryArea<VirtualAddress>) -> (r: bool)
        requires
            self.memory_area.fits(),
            area.fits(),
        ensures
            r == (self.memory_area.start() <= area.start() && area.end() <= self.memory_area.end()),
    {
        area.is_contained_in(self.memory_area)
    }

    /// Returns the start address of this segment.
    pub fn start_address(&self) -> (r: VirtualAddress)
        ensures
            r == self.memory_area.start_address,
    {
        self.memory_area.start_address()
    }

    /// Returns the end address of this segment.
    pub fn end_address(&self) -> (r: VirtualAddress)
        requires
            self.memory_area.fits(),
        ensures
            r.0 == self.memory_area.end(),
    {
        self.memory_area.end_address()
    }

    /// Returns the addresses of the pages to unmap when the segment goes
    /// away, and whether each unmapping is to be checked: it is for a
    /// segment read from a file.
    pub fn unmap_pages(&self) -> (r: (Vec<VirtualAddress>, bool))
        requires
            self.memory_area.length > 0,
            self.memory_area.fits(),
        ensures
            r.0@.len() == (self.memory_area.length - 1) / PAGE_SIZE as int + 1,
            forall|i: int| 0 <= i < r.0@.len() ==> #[trigger] r.0@[i].0 == self.memory_area.start() + i * PAGE_SIZE,
            r.1 == (self.segment_type == SegmentType::FromFile),
    {
        let pages_in_segment = (self.memory_area.length - 1) / PAGE_SIZE + 1;
        let start = self.memory_area.start_address.0;
        let mut pages: Vec<VirtualAddress> = Vec::new();
        let mut page_num: u64 = 0;
        while page_num < pages_in_segment
            invariant
                pages_in_segment == (self.memory_area.length - 1) / PAGE_SIZE as int + 1,
                start == self.memory_area.start(),
                self.memory_area.length > 0,
                self.memory_area.fits(),
                0 <= page_num <= pages_in_segment,
                pages@.len() == page_num,
                forall|i: int| 0 <= i < pages@.len() ==> #[trigger] pages@[i].0 == start + i * PAGE_SIZE,
            decreases pages_in_segment - page_num,
        {
            assert(page_num * 4096 <= self.memory_area.length - 1) by (nonlinear_arith)
                requires
                    page_num < (self.memory_area.length - 1) / 4096 + 1,
                    self.memory_area.length > 0,
            ;
            pages.push(VirtualAddress(start + page_num * PAGE_SIZE));
            page_num = page_num + 1;
        }
        (pages, self.segment_type == SegmentType::FromFile)
    }
}

/// The part of an area that page `i` of a zeroing covers: its address and
/// length.
pub open spec fn zero_chunk(area: MemoryArea<VirtualAddress>, i: int) -> (u64, u64) {
    (
        (area.start() + i * PAGE_SIZE) as u64,
        if (i + 1) * PAGE_SIZE > area.length {
            (area.length % PAGE_SIZE) as u64
        } else {
            PAGE_SIZE
        },
    )
}

/// Splits the zeroing of an area into one write per page: each starts a page
/// further and covers a page, or the rest of the area on its last page.
pub fn zero_chunks(area: MemoryArea<VirtualAddress>) -> (r: Vec<(u64, u64)>)
    requires
        area.length > 0,
        area.fits(),
    ensures
        r@.len() == (area.length - 1) / PAGE_SIZE as int + 1,
        forall|i: int| 0 <= i < r@.len() ==> #[trigger] r@[i] == zero_chunk(area, i),
{
    let start = area.start_address.0;
    let length = area.length;
    let num_of_pages = (length - 1) / PAGE_SIZE + 1;
    let mut chunks: Vec<(u64, u64)> = Vec::new();
    let mut i: u64 = 0;
    while i < num_of_pages
        invariant
            num_of_pages == (length - 1) / PAGE_SIZE as int + 1,
            start == area.start(),
            length == area.length,
            length > 0,
            area.fits(),
            0 <= i <= num_of_pages,
            chunks@.len() == i,
            forall|j: int| 0 <= j < chunks@.len() ==> #[trigger] chunks@[j] == zero_chunk(area, j),
        decreases num_of_pages - i,
    {
        assert(i * 4096 <= length - 1) by (nonlinear_arith)
            requires
                i < (length - 1) / 4096 + 1,
                length > 0,
        ;
        let chunk_length = if length - i * PAGE_SIZE < PAGE_SIZE {
            length % PAGE_SIZE
        } else {
            PAGE_SIZE
        };
        chunks.push((start + i * PAGE_SIZE, chunk_length));
        i = i + 1;
    }
    chunks
}

/// Represents an address space by the segments that are part of it.
pub struct AddressSpace {
    /// The segments that are part of the address space.
    pub segments: Vec<Segment>,
}

/// The segment lies within the range of addresses a segment may take: a
/// user accessible one lies in the lower half of the address space.
pub open spec fn segment_allowed(s: Segment) -> bool {
    s.flags.has(USER_ACCESSIBLE) ==> s.memory_area.start() <= VIRTUAL_LOW_MAX_ADDRESS
        && s.memory_area.end() <= VIRTUAL_LOW_MAX_ADDRESS
}

impl AddressSpace {
    /// Every segment fits in the address space, no two segments overlap and
    /// user accessible segments lie in the lower half.
    pub open spec fn wf(&self) -> bool {
        &&& forall|i: int| 0 <= i < self.segments@.len() ==> (#[trigger] self.segments@[i]).memory_area.fits()
            && segment_allowed(self.segments@[i])
        &&& forall|i: int, j: int| 0 <= i < j < self.segments@.len() ==> !segments_overlap(
            #[trigger] self.segments@[i],
            #[trigger] self.segments@[j],
        )
    }

    /// Creates a new address space without segments.
    pub fn new() -> (r: AddressSpace)
        ensures
            r.wf(),
            r.segments@.len() == 0,
    {
        AddressSpace { segments: Vec::new() }
    }

    /// Adds the segment to the address space.
    ///
    /// Returns true if the segment was added: it overlaps no segment, and if
    /// it is user accessible, both its start and its end address are
    /// userspace addresses.
    pub fn add_segment(&mut self, segment_to_add: Segment) -> (r: bool)
        requires
            old(self).wf(),
            segment_to_add.memory_area.fits(),
        ensures
            final(self).wf(),
            r == ((forall|i: int| 0 <= i < old(self).segments@.len() ==> !segments_overlap(
                segment_to_add,
                #[trigger] old(self).segments@[i],
            )) && segment_allowed(segment_to_add)),
            r ==> final(self).segments@ == old(self).segments@.push(segment_to_add),
            !r ==> final(self).segments@ == old(self).segments@,
    {
        let n = self.segments.len();
        let mut i: usize = 0;
        while i < n
            invariant
                n == self.segments@.len(),
                0 <= i <= n,
                self.wf(),
                self.segments@ == old(self).segments@,
                segment_to_add.memory_area.fits(),
                forall|j: int| 0 <= j < i ==> !segments_overlap(segment_to_add, #[trigger] self.segments@[j]),
            decreases n - i,
        {
            if segment_to_add.overlaps(&self.segments[i]) {
                return false;
            }
            i = i + 1;
        }
        if segment_to_add.flags.contains(USER_ACCESSIBLE) && !(is_userspace_address(segment_to_add.start_address())
            && is_userspace_address(segment_to_add.end_address())) {
            false
        } else {
            self.segments.push(segment_to_add);
            proof {
                let s = self.segments@;
                assert forall|a: int, b: int| 0 <= a < b < s.len() implies !segments_overlap(
                    #[trigger] s[a],
                    #[trigger] s[b],
                ) by {
                    if b == n {
                        assert(!segments_overlap(segment_to_add, s[a]));
                    }
                }
            }
            true
        }
    }

    /// Returns the index of the first segment that contains the area, if it
    /// exists.
    pub fn get_segment(&self, area: MemoryArea<VirtualAddress>) -> (r: Option<usize>)
        requires
            self.wf(),
            area.fits(),
        ensures
            r matches Some(i) ==> i < self.segments@.len() && self.segments@[i as int].memory_area.start()
                <= area.start() && area.end() <= self.segments@[i as int].memory_area.end() && forall|j: int|
                0 <= j < i ==> !(#[trigger] self.segments@[j].memory_area.start() <= area.start() && area.end()
                <= self.segments@[j].memory_area.end()),
            r is None ==> forall|j: int| 0 <= j < self.segments@.len() ==> !(
            #[trigger] self.segments@[j].memory_area.start() <= area.start() && area.end()
                <= self.segments@[j].memory_area.end()),
    {
        let n = self.segments.len();
        let mut i: usize = 0;
        while i < n
            invariant
                n == self.segments@.len(),
                0 <= i <= n,
                self.wf(),
                area.fits(),
                forall|j: int| 0 <= j < i ==> !(#[trigger] self.segments@[j].memory_area.start() <= area.start()
                    && area.end() <= self.segments@[j].memory_area.end()),
            decreases n - i,
        {
            if self.segments[i].contains_area(area) {
                return Some(i);
            }
            i = i + 1;
        }
        None
    }

    /// Returns true if the given memory area is contained within a single
    /// segment.
    pub fn contains_area(&self, area: MemoryArea<VirtualAddress>) -> (r: bool)
        requires
            self.wf(),
            area.fits(),
        ensures
            r == exists|j: int| 0 <= j < self.segments@.len() && #[trigger] self.segments@[j].memory_area.start()
                <= area.start() && area.end() <= self.segments@[j].memory_area.end(),
    {
        self.get_segment(area).is_some()
    }

    /// Returns the flags to map the page at the given address with: those of
    /// the segment that holds it, or `None` if no segment does.
    pub fn page_flags(&self, page_address: VirtualAddress) -> (r: Option<PageFlags>)
        requires
            self.wf(),
        ensures
            r is Some <==> exists|j: int| 0 <= j < self.segments@.len()
                && #[trigger] self.segments@[j].memory_area.start() <= page_address.0 && page_address.0
                <= self.segments@[j].memory_area.end(),
            r matches Some(f) ==> exists|j: int| 0 <= j < self.segments@.len()
                && #[trigger] self.segments@[j].memory_area.start() <= page_address.0 && page_address.0
                <= self.segments@[j].memory_area.end() && self.segments@[j].flags == f,
    {
        self.segment_flags(MemoryArea::new(page_address, 0))
    }

    /// Writes the buffer to the address in this address space, through the
    /// manager of its page table: the touched pages get the flags of the
    /// segment that holds the area, and byte `i` of the buffer is found at
    /// `address + i` afterwards.
    ///
    /// The area must lie within one segment.
    pub fn write_to(
        &self,
        manager: &mut AddressSpaceManager,
        buffer: &[u8],
        address: VirtualAddress,
        memory: &mut PhysicalMemory,
        allocator: &mut FrameAllocator,
    )
        requires
            self.wf(),
            1 <= buffer@.len(),
            address.0 + buffer@.len() <= u64::MAX,
            exists|j: int|
                0 <= j < self.segments@.len() && #[trigger] self.segments@[j].memory_area.start() <= address.0
                    && address.0 + buffer@.len() <= self.segments@[j].memory_area.end(),
            old(allocator).wf(),
            table_wf(old(manager).table@),
            frames_allocated(old(manager).table@, *old(allocator)),
            old(allocator).free_frames >= unmapped_pages(old(manager).table@, address.0, buffer@.len() as u64, 0),
        ensures
            final(allocator).wf(),
            table_wf(final(manager).table@),
            frames_allocated(final(manager).table@, *final(allocator)),
            forall|i: int|
                0 <= i < buffer@.len() ==> #[trigger] read_virtual(
                    final(manager).table@,
                    final(memory)@,
                    (address.0 + i) as u64,
                ) == Some(buffer@[i]),
            exists|j: int|
                0 <= j < self.segments@.len() && #[trigger] self.segments@[j].memory_area.start() <= address.0
                    && address.0 + buffer@.len() <= self.segments@[j].memory_area.end() && forall|k: int|
                    0 <= k < pages_touched(address.0, buffer@.len() as u64) ==> #[trigger] final(manager).table@[chunk_page(address.0, buffer@.len() as u64, k)].flags == spec_convert_flags(
                        self.segments@[j].flags,
                    ),
    {
        let area = MemoryArea::new(address, buffer.len() as u64);
        let flags = self.segment_flags(area).unwrap();
        let ghost j = choose|j: int|
            0 <= j < self.segments@.len() && #[trigger] self.segments@[j].memory_area.start() <= area.start()
                && area.end() <= self.segments@[j].memory_area.end() && self.segments@[j].flags == flags;
        manager.write_to(buffer, address, flags, memory, allocator);
        assert(0 <= j < self.segments@.len() && self.segments@[j].memory_area.start() <= address.0 && address.0
            + buffer@.len() <= self.segments@[j].memory_area.end());
    }

    /// Maps the page at the given address through the manager of the page
    /// table, with the flags of the segment that holds it.
    ///
    /// A segment must hold the address, the page must not be mapped yet and
    /// a frame must be left.
    pub fn map_page(
        &self,
        manager: &mut AddressSpaceManager,
        page_address: VirtualAddress,
        allocator: &mut FrameAllocator,
    )
        requires
            self.wf(),
            exists|j: int|
                0 <= j < self.segments@.len() && #[trigger] self.segments@[j].memory_area.start() <= page_address.0
                    && page_address.0 <= self.segments@[j].memory_area.end(),
            !old(manager).table@.contains_key(align_down(page_address.0)),
            old(allocator).wf(),
            old(allocator).list@.len() > 0,
        ensures
            final(allocator).wf(),
            final(allocator).free_frames == old(allocator).free_frames - 1,
            exists|j: int|
                0 <= j < self.segments@.len() && #[trigger] self.segments@[j].memory_area.start() <= page_address.0
                    && page_address.0 <= self.segments@[j].memory_area.end() && final(manager).table@ == old(manager).table@.insert(
                    align_down(page_address.0),
                    PageTableEntry {
                        frame: old(allocator).list@[0].start,
                        flags: spec_convert_flags(self.segments@[j].flags),
                    },
                ),
            table_wf(old(manager).table@) && frames_allocated(old(manager).table@, *old(allocator)) ==> table_wf(
                final(manager).table@,
            ) && frames_allocated(final(manager).table@, *final(allocator)),
    {
        let flags = self.page_flags(page_address).unwrap();
        let ghost j = choose|j: int|
            0 <= j < self.segments@.len() && #[trigger] self.segments@[j].memory_area.start() <= page_address.0
                && page_address.0 <= self.segments@[j].memory_area.end() && self.segments@[j].flags == flags;
        manager.map_page(page_address, flags, allocator);
        assert(0 <= j < self.segments@.len() && self.segments@[j].memory_area.start() <= page_address.0
            && page_address.0 <= self.segments@[j].memory_area.end());
    }

    /// Unmaps the page at the given address through the manager of the page
    /// table, and returns its frame.
    ///
    /// The page must be mapped.
    pub fn unmap_page(&self, manager: &mut AddressSpaceManager, start_address: VirtualAddress) -> (r: PageFrame)
        requires
            old(manager).table@.contains_key(align_down(start_address.0)),
        ensures
            final(manager).table@ == old(manager).table@.remove(align_down(start_address.0)),
            r.0 == old(manager).table@[align_down(start_address.0)].frame,
            table_wf(old(manager).table@) ==> table_wf(final(manager).table@),
    {
        manager.unmap_page(start_address)
    }

    /// Returns the flags of the segment that an access to the area goes
    /// through, or `None` for an access outside every segment.
    pub fn segment_flags(&self, area: MemoryArea<VirtualAddress>) -> (r: Option<PageFlags>)
        requires
            self.wf(),
            area.fits(),
        ensures
            r is Some <==> exists|j: int| 0 <= j < self.segments@.len()
                && #[trigger] self.segments@[j].memory_area.start() <= area.start() && area.end()
                <= self.segments@[j].memory_area.end(),
            r matches Some(f) ==> exists|j: int| 0 <= j < self.segments@.len()
                && #[trigger] self.segments@[j].memory_area.start() <= area.start() && area.end()
                <= self.segments@[j].memory_area.end() && self.segments@[j].flags == f,
    {
        match self.get_segment(area) {
            Some(i) => Some(self.segments[i].flags),
            None => None,
        }
    }
}

} // verus!
