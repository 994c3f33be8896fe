//! A page table, seen as the map from each mapped page to its entry, the
//! physical memory its frames lie in, and the operations that map, unmap
//! and write through it.
//!
//! The walk through the four levels of tables is the architecture code's;
//! here a page either has a present entry, holding its frame and flags, or
//! none.

use vstd::prelude::*;
use std::collections::BTreeMap;
use crate::free_list::FrameAllocator;
use crate::memory::{PageFlags, PhysicalAddress, VirtualAddress, PAGE_SIZE};
use crate::paging::{
    align_down, chunk_bytes, chunk_of_byte, convert_flags, lemma_write_chunks_place_bytes, pages_touched,
    spec_convert_flags, spec_write_chunk, write_chunks, Page, PageFrame, PageTableEntryFlags, ENTRY_PRESENT,
    ENTRY_WRITABLE,
};

verus! {

broadcast use vstd::std_specs::btree::group_btree_axioms;

/// A present page table entry: the frame the page is mapped to and the
/// entry's flags.
#[derive(Clone, Copy, Debug, PartialEq, Eq, Structural)]
pub struct PageTableEntry {
    /// The physical address of the frame.
    pub frame: u64,
    /// The flag bits of the entry, the present bit among them.
    pub flags: u64,
}

/// An entry is well formed: its frame is page aligned and lies in the
/// address space, and it is present.
pub open spec fn entry_wf(e: PageTableEntry) -> bool {
    &&& e.frame % PAGE_SIZE == 0
    &&& e.frame + PAGE_SIZE <= u64::MAX
    &&& e.flags & ENTRY_PRESENT == ENTRY_PRESENT
}

/// A page table is well formed: its pages are page aligned, its entries
/// well formed, and no two pages share a frame.
pub open spec fn table_wf(t: Map<u64, PageTableEntry>) -> bool {
    &&& forall|p: u64| #[trigger] t.contains_key(p) ==> p % PAGE_SIZE == 0 && entry_wf(t[p])
    &&& forall|p: u64, q: u64|
        #[trigger] t.contains_key(p) && #[trigger] t.contains_key(q) && p != q ==> t[p].frame != t[q].frame
}

/// Every frame the table maps to is taken: the allocator holds none of it.
pub open spec fn frames_allocated(t: Map<u64, PageTableEntry>, allocator: FrameAllocator) -> bool {
    forall|p: u64, x: int|
        #[trigger] t.contains_key(p) && t[p].frame <= x < t[p].frame + PAGE_SIZE ==> !#[trigger] allocator.frame_is_free(x)
}

/// The physical address that a virtual address translates to: its offset
/// in the frame of its page, if that page is mapped.
pub open spec fn spec_translate(t: Map<u64, PageTableEntry>, address: u64) -> Option<u64> {
    let page = align_down(address);
    if t.contains_key(page) && t[page].flags & ENTRY_PRESENT == ENTRY_PRESENT {
        Some((t[page].frame + address % PAGE_SIZE) as u64)
    } else {
        None
    }
}

/// A page table: the entries of the mapped pages, by page address.
pub struct PageTable {
    /// The entry of each mapped page.
    pub entries: BTreeMap<u64, PageTableEntry>,
}

impl View for PageTable {
    type V = Map<u64, PageTableEntry>;

    open spec fn view(&self) -> Map<u64, PageTableEntry> {
        self.entries@
    }
}

proof fn lemma_set_present(flags: u64)
    ensures
        (flags | ENTRY_PRESENT) & ENTRY_PRESENT == ENTRY_PRESENT,
        (ENTRY_PRESENT | flags) & ENTRY_PRESENT == ENTRY_PRESENT,
{
    assert((flags | 1u64) & 1u64 == 1u64) by (bit_vector);
    assert((1u64 | flags) & 1u64 == 1u64) by (bit_vector);
}

impl PageTable {
    /// Creates a page table that maps nothing.
    pub fn new() -> (r: PageTable)
        ensures
            r@ == Map::<u64, PageTableEntry>::empty(),
    {
        PageTable { entries: BTreeMap::new() }
    }

    /// Returns the entry of the given page, if it is mapped.
    pub fn get_entry(&self, page: Page) -> (r: Option<PageTableEntry>)
        ensures
            r == (if self@.contains_key(page.0) {
                Some(self@[page.0])
            } else {
                None
            }),
    {
        match self.entries.get(&page.0) {
            Some(entry) => Some(*entry),
            None => None,
        }
    }

    /// Returns the physical address the virtual address translates to, if
    /// its page is mapped.
    pub fn translate_address(&self, address: VirtualAddress) -> (r: Option<PhysicalAddress>)
        requires
            table_wf(self@),
        ensures
            r == match spec_translate(self@, address.0) {
                Some(a) => Some(PhysicalAddress(a)),
                None => None,
            },
    {
        let page = Page::from_address(address);
        match self.get_entry(page) {
            Some(entry) => {
                if entry.flags & ENTRY_PRESENT == ENTRY_PRESENT {
                    Some(PhysicalAddress(entry.frame + address.0 % PAGE_SIZE))
                } else {
                    None
                }
            },
            None => None,
        }
    }

    /// Maps the given page to the given frame with the given flags; the
    /// entry is present.
    ///
    /// The page must not be mapped yet.
    pub fn map_page_at(&mut self, page: Page, frame: PageFrame, flags: PageTableEntryFlags)
        requires
            !old(self)@.contains_key(page.0),
        ensures
            final(self)@ == old(self)@.insert(
                page.0,
                PageTableEntry { frame: frame.0, flags: flags.bits | ENTRY_PRESENT },
            ),
    {
        self.entries.insert(page.0, PageTableEntry { frame: frame.0, flags: flags.bits | ENTRY_PRESENT });
    }

    /// Maps the given page to a frame taken from the allocator, with the
    /// given flags.
    ///
    /// The page must not be mapped yet, and a frame must be left.
    pub fn map_page(&mut self, page: Page, flags: PageTableEntryFlags, allocator: &mut FrameAllocator)
        requires
            !old(self)@.contains_key(page.0),
            old(allocator).wf(),
            old(allocator).list@.len() > 0,
        ensures
            final(allocator).wf(),
            ({
                let frame = old(allocator).list@[0].start;
                &&& final(self)@ == old(self)@.insert(
                    page.0,
                    PageTableEntry { frame, flags: flags.bits | ENTRY_PRESENT },
                )
                &&& final(allocator).free_frames == old(allocator).free_frames - 1
                &&& forall|x: int| frame <= x < frame + PAGE_SIZE ==> old(allocator).frame_is_free(x)
                    && !final(allocator).frame_is_free(x)
                &&& forall|x: int| !(frame <= x < frame + PAGE_SIZE) ==> (final(allocator).frame_is_free(x)
                    <==> old(allocator).frame_is_free(x))
            }),
            page.0 % PAGE_SIZE == 0 && table_wf(old(self)@) && frames_allocated(old(self)@, *old(allocator))
                ==> table_wf(final(self)@) && frames_allocated(final(self)@, *final(allocator)),
    {
        let ghost before = self@;
        let frame = allocator.allocate();
        let ghost f = frame.0;
        self.map_page_at(page, frame, flags);
        proof {
            lemma_set_present(flags.bits);
            if page.0 % PAGE_SIZE == 0 && table_wf(before) && frames_allocated(before, *old(allocator)) {
                let after = self@;
                assert forall|p: u64, q: u64|
                    #[trigger] after.contains_key(p) && #[trigger] after.contains_key(q) && p != q implies after[p].frame
                    != after[q].frame by {
                    if p == page.0 {
                        assert(before.contains_key(q));
                        assert(old(allocator).frame_is_free(f as int));
                    } else if q == page.0 {
                        assert(before.contains_key(p));
                        assert(old(allocator).frame_is_free(f as int));
                    } else {
                        assert(before.contains_key(p) && before.contains_key(q));
                    }
                }
                assert forall|p: u64, x: int|
                    #[trigger] after.contains_key(p) && after[p].frame <= x < after[p].frame + PAGE_SIZE implies !#[trigger] allocator.frame_is_free(
                        x,
                    ) by {
                    if p != page.0 {
                        assert(before.contains_key(p));
                        assert(!old(allocator).frame_is_free(x));
                    }
                }
            }
        }
    }

    /// Sets the flags of the given page, which stays present on its frame,
    /// or maps it to a frame taken from the allocator if it is not mapped.
    pub fn change_permissions_or_map(
        &mut self,
        page: Page,
        flags: PageTableEntryFlags,
        allocator: &mut FrameAllocator,
    )
        requires
            old(allocator).wf(),
            old(self)@.contains_key(page.0) || old(allocator).list@.len() > 0,
        ensures
            final(allocator).wf(),
            old(self)@.contains_key(page.0) ==> {
                &&& final(self)@ == old(self)@.insert(
                    page.0,
                    PageTableEntry { frame: old(self)@[page.0].frame, flags: ENTRY_PRESENT | flags.bits },
                )
                &&& *final(allocator) == *old(allocator)
            },
            !old(self)@.contains_key(page.0) ==> {
                let frame = old(allocator).list@[0].start;
                &&& final(self)@ == old(self)@.insert(
                    page.0,
                    PageTableEntry { frame, flags: flags.bits | ENTRY_PRESENT },
                )
                &&& final(allocator).free_frames == old(allocator).free_frames - 1
            },
            page.0 % PAGE_SIZE == 0 && table_wf(old(self)@) && frames_allocated(old(self)@, *old(allocator))
                ==> table_wf(final(self)@) && frames_allocated(final(self)@, *final(allocator)),
    {
        let ghost before = self@;
        match self.get_entry(page) {
            Some(entry) => {
                self.entries.insert(page.0, PageTableEntry { frame: entry.frame, flags: ENTRY_PRESENT | flags.bits });
                proof {
                    lemma_set_present(flags.bits);
                    if page.0 % PAGE_SIZE == 0 && table_wf(before) && frames_allocated(before, *old(allocator)) {
                        let after = self@;
                        assert forall|p: u64, q: u64|
                            #[trigger] after.contains_key(p) && #[trigger] after.contains_key(q) && p != q implies after[p].frame
                            != after[q].frame by {
                            assert(before.contains_key(p) && before.contains_key(q));
                        }
                        assert forall|p: u64, x: int|
                            #[trigger] after.contains_key(p) && after[p].frame <= x < after[p].frame + PAGE_SIZE implies !#[trigger] allocator.frame_is_free(
                                x,
                            ) by {
                            assert(before.contains_key(p));
                        }
                    }
                }
            },
            None => {
                self.map_page(page, flags, allocator);
            },
        }
    }

    /// Sets the flags of the given mapped page, which stays on its frame.
    pub fn set_flags(&mut self, page: Page, flags: PageTableEntryFlags)
        requires
            old(self)@.contains_key(page.0),
        ensures
            final(self)@ == old(self)@.insert(
                page.0,
                PageTableEntry { frame: old(self)@[page.0].frame, flags: flags.bits },
            ),
            table_wf(old(self)@) && flags.bits & ENTRY_PRESENT == ENTRY_PRESENT ==> table_wf(final(self)@),
    {
        let ghost before = self@;
        let entry = self.get_entry(page).unwrap();
        self.entries.insert(page.0, PageTableEntry { frame: entry.frame, flags: flags.bits });
        proof {
            if table_wf(before) && flags.bits & ENTRY_PRESENT == ENTRY_PRESENT {
                let after = self@;
                assert forall|p: u64, q: u64|
                    #[trigger] after.contains_key(p) && #[trigger] after.contains_key(q) && p != q implies after[p].frame
                    != after[q].frame by {
                    assert(before.contains_key(p) && before.contains_key(q));
                }
            }
        }
    }

    /// Unmaps the given page and returns the frame it was mapped to, which
    /// the caller gives back to the frame allocator once nothing refers to
    /// it anymore.
    ///
    /// The page must be mapped.
    pub fn unmap_page(&mut self, page: Page) -> (r: PageFrame)
        requires
            old(self)@.contains_key(page.0),
        ensures
            final(self)@ == old(self)@.remove(page.0),
            r.0 == old(self)@[page.0].frame,
            table_wf(old(self)@) ==> table_wf(final(self)@),
    {
        let entry = self.get_entry(page).unwrap();
        self.entries.remove(&page.0);
        PageFrame(entry.frame)
    }
}

/// The memory after writing `data` at `address`: the written bytes hold
/// the data, all others keep what they held.
pub open spec fn written(m: Map<u64, u8>, address: int, data: Seq<u8>) -> Map<u64, u8> {
    m.union_prefer_right(Map::new(|a: u64| address <= a < address + data.len(), |a: u64| data[a - address]))
}

/// The physical memory: the bytes that were written, by address.
pub struct PhysicalMemory {
    /// The byte at each written address.
    pub bytes: BTreeMap<u64, u8>,
}

impl View for PhysicalMemory {
    type V = Map<u64, u8>;

    open spec fn view(&self) -> Map<u64, u8> {
        self.bytes@
    }
}

impl PhysicalMemory {
    /// Creates a memory in which nothing was written.
    pub fn new() -> (r: PhysicalMemory)
        ensures
            r@ == Map::<u64, u8>::empty(),
    {
        PhysicalMemory { bytes: BTreeMap::new() }
    }

    /// Returns the byte at the address, if one was written there.
    pub fn read(&self, address: PhysicalAddress) -> (r: Option<u8>)
        ensures
            r == (if self@.contains_key(address.0) {
                Some(self@[address.0])
            } else {
                None
            }),
    {
        match self.bytes.get(&address.0) {
            Some(byte) => Some(*byte),
            None => None,
        }
    }

    /// Writes the data at the address.
    pub fn write(&mut self, address: PhysicalAddress, data: &[u8])
        requires
            address.0 + data@.len() <= u64::MAX,
        ensures
            final(self)@ == written(old(self)@, address.0 as int, data@),
    {
        let n = data.len();
        let mut i: usize = 0;
        while i < n
            invariant
                n == data@.len(),
                address.0 + n <= u64::MAX,
                0 <= i <= n,
                self@ == written(old(self)@, address.0 as int, data@.take(i as int)),
            decreases n - i,
        {
            self.bytes.insert(address.0 + i as u64, data[i]);
            assert(self@ =~= written(old(self)@, address.0 as int, data@.take(i + 1)));
            i = i + 1;
        }
        assert(data@.take(n as int) =~= data@);
    }
}

/// The page of part `k` of a write of `length` bytes at `address`.
pub open spec fn chunk_page(address: u64, length: u64, k: int) -> u64 {
    spec_write_chunk(address, length, k).page_address
}

/// The number of parts, from part `k` on, of a write of `length` bytes at
/// `address` whose page the table does not map: the frames the write takes
/// from the allocator.
pub open spec fn unmapped_pages(t: Map<u64, PageTableEntry>, address: u64, length: u64, k: int) -> nat
    decreases pages_touched(address, length) - k,
{
    if k < 0 || k >= pages_touched(address, length) {
        0
    } else {
        (if t.contains_key(chunk_page(address, length, k)) {
            0nat
        } else {
            1nat
        }) + unmapped_pages(t, address, length, k + 1)
    }
}

/// The byte at the virtual address, read through the table from the
/// physical memory.
pub open spec fn read_virtual(t: Map<u64, PageTableEntry>, m: Map<u64, u8>, address: u64) -> Option<u8> {
    match spec_translate(t, address) {
        Some(physical) => if m.contains_key(physical) {
            Some(m[physical])
        } else {
            None
        },
        None => None,
    }
}

/// The page is one that a write of `length` bytes at `address` touches.
pub open spec fn is_written_page(address: u64, length: u64, p: u64) -> bool {
    exists|j: int| 0 <= j < pages_touched(address, length) && #[trigger] chunk_page(address, length, j) == p
}

/// The physical address lies in the frame of a page that a write of
/// `length` bytes at `address` touches.
pub open spec fn in_written_frame(t: Map<u64, PageTableEntry>, address: u64, length: u64, x: u64) -> bool {
    exists|j: int|
        0 <= j < pages_touched(address, length) && #[trigger] t.contains_key(chunk_page(address, length, j)) && t[chunk_page(
            address,
            length,
            j,
        )].frame <= x < t[chunk_page(address, length, j)].frame + PAGE_SIZE
}

proof fn lemma_chunk_page(address: u64, length: u64, k: int)
    requires
        1 <= length,
        address + length - 1 <= u64::MAX,
        0 <= k < pages_touched(address, length),
    ensures
        chunk_page(address, length, k) == ((address / PAGE_SIZE) as int + k) * PAGE_SIZE,
        chunk_page(address, length, k) % PAGE_SIZE == 0,
        spec_write_chunk(address, length, k).offset + spec_write_chunk(address, length, k).length <= PAGE_SIZE,
        forall|j: int| 0 <= j < pages_touched(address, length) && j != k ==> #[trigger] chunk_page(address, length, j)
            != chunk_page(address, length, k),
{
    let a = address as int;
    let l = length as int;
    let p = 4096int;
    let q = a / p;
    let last = (a + l - 1) / p;
    assert(q * p <= a && last * p <= a + l - 1) by (nonlinear_arith)
        requires
            q == a / p,
            last == (a + l - 1) / p,
            a >= 0,
            l >= 1,
            p == 4096,
    ;
    assert((q + k) * p <= last * p) by (nonlinear_arith)
        requires
            q + k <= last,
            k >= 0,
            p == 4096,
    ;
    assert((q + k) * p >= 0) by (nonlinear_arith)
        requires
            q >= 0,
            k >= 0,
            p == 4096,
    ;
    assert(((q + k) * p) % p == 0) by (nonlinear_arith)
        requires
            p == 4096,
    ;
    assert forall|j: int| 0 <= j < pages_touched(address, length) && j != k implies #[trigger] chunk_page(
        address,
        length,
        j,
    ) != chunk_page(address, length, k) by {
        assert((q + j) * p <= last * p) by (nonlinear_arith)
            requires
                q + j <= last,
                j >= 0,
                p == 4096,
        ;
        assert((q + j) * p >= 0) by (nonlinear_arith)
            requires
                q >= 0,
                j >= 0,
                p == 4096,
        ;
        assert((q + j) * p != (q + k) * p) by (nonlinear_arith)
            requires
                j != k,
                p == 4096,
        ;
    }
}

proof fn lemma_page_parts(page: u64, r: int)
    requires
        page % PAGE_SIZE == 0,
        0 <= r < PAGE_SIZE,
        page + r <= u64::MAX,
    ensures
        align_down((page + r) as u64) == page,
        ((page + r) as u64) % PAGE_SIZE == r,
{
    let x = (page + r) as u64;
    assert(x % 4096 == r) by (nonlinear_arith)
        requires
            page % 4096 == 0,
            0 <= r < 4096,
            x == page + r,
    ;
}

proof fn lemma_frames_apart(f: u64, g: u64)
    requires
        f % PAGE_SIZE == 0,
        g % PAGE_SIZE == 0,
        f != g,
    ensures
        f + PAGE_SIZE <= g || g + PAGE_SIZE <= f,
{
    assert(f + 4096 <= g || g + 4096 <= f) by (nonlinear_arith)
        requires
            f % 4096 == 0,
            g % 4096 == 0,
            f != g,
    ;
}

proof fn lemma_frames_left(allocator: FrameAllocator)
    requires
        allocator.wf(),
        allocator.free_frames > 0,
    ensures
        allocator.list@.len() > 0,
{
}

proof fn lemma_convert_present(flags: PageFlags)
    ensures
        spec_convert_flags(flags) & ENTRY_PRESENT == ENTRY_PRESENT,
{
    let w = if flags.has(crate::memory::WRITABLE) { crate::paging::ENTRY_WRITABLE } else { 0 };
    let x = if !flags.has(crate::memory::EXECUTABLE) { crate::paging::ENTRY_NO_EXECUTE } else { 0 };
    let c = if flags.has(crate::memory::NO_CACHE) { crate::paging::ENTRY_DISABLE_CACHE } else { 0 };
    let u = if flags.has(crate::memory::USER_ACCESSIBLE) { crate::paging::ENTRY_USER_ACCESSIBLE } else { 0 };
    assert((1u64 | w | x | c | u) & 1u64 == 1u64) by (bit_vector);
}

/// After a page is mapped to a frame, every address in the page
/// translates to the same offset in the frame.
pub proof fn lemma_map_then_translate(
    t: Map<u64, PageTableEntry>,
    page: u64,
    frame: u64,
    flags: u64,
    offset: int,
)
    requires
        page % PAGE_SIZE == 0,
        0 <= offset < PAGE_SIZE,
        page + offset <= u64::MAX,
    ensures
        spec_translate(
            t.insert(page, PageTableEntry { frame, flags: flags | ENTRY_PRESENT }),
            (page + offset) as u64,
        ) == Some((frame + offset) as u64),
{
    lemma_page_parts(page, offset);
    lemma_set_present(flags);
}

/// Unmapping a page that was just mapped gives back the table from before,
/// and the frame it was mapped to.
pub proof fn lemma_unmap_undoes_map(t: Map<u64, PageTableEntry>, page: u64, entry: PageTableEntry)
    requires
        !t.contains_key(page),
    ensures
        t.insert(page, entry).remove(page) == t,
        t.insert(page, entry)[page].frame == entry.frame,
{
    assert(t.insert(page, entry).remove(page) =~= t);
}

proof fn lemma_convert_keeps_present(flags: PageFlags)
    ensures
        spec_convert_flags(flags) | ENTRY_PRESENT == spec_convert_flags(flags),
        spec_convert_flags(flags) & ENTRY_PRESENT == ENTRY_PRESENT,
{
    lemma_convert_present(flags);
    let bits = spec_convert_flags(flags);
    assert((bits | 1u64) == bits) by (bit_vector)
        requires
            bits & 1u64 == 1u64,
    ;
}

/// Maps the page at the given address to the frame at the given address,
/// with the entry flags for the given page flags.
///
/// The page must not be mapped yet.
pub fn map_page_at(
    table: &mut PageTable,
    page_address: VirtualAddress,
    frame_address: PhysicalAddress,
    flags: PageFlags,
)
    requires
        !old(table)@.contains_key(align_down(page_address.0)),
    ensures
        final(table)@ == old(table)@.insert(
            align_down(page_address.0),
            PageTableEntry { frame: align_down(frame_address.0), flags: spec_convert_flags(flags) },
        ),
{
    proof {
        lemma_convert_keeps_present(flags);
    }
    table.map_page_at(Page::from_address(page_address), PageFrame::from_address(frame_address), convert_flags(flags));
}

/// Maps the page at the given address to a frame taken from the allocator,
/// with the entry flags for the given page flags.
///
/// The page must not be mapped yet, and a frame must be left.
pub fn map_page(table: &mut PageTable, page_address: VirtualAddress, flags: PageFlags, allocator: &mut FrameAllocator)
    requires
        !old(table)@.contains_key(align_down(page_address.0)),
        old(allocator).wf(),
        old(allocator).list@.len() > 0,
    ensures
        final(allocator).wf(),
        final(table)@ == old(table)@.insert(
            align_down(page_address.0),
            PageTableEntry { frame: old(allocator).list@[0].start, flags: spec_convert_flags(flags) },
        ),
        final(allocator).free_frames == old(allocator).free_frames - 1,
        table_wf(old(table)@) && frames_allocated(old(table)@, *old(allocator)) ==> table_wf(final(table)@)
            && frames_allocated(final(table)@, *final(allocator)),
{
    let page = Page::from_address(page_address);
    proof {
        lemma_convert_keeps_present(flags);
        assert(page.0 % PAGE_SIZE == 0);
    }
    table.map_page(page, convert_flags(flags), allocator);
}

/// Unmaps the page at the given address and returns the frame it was
/// mapped to.
///
/// The page must be mapped.
pub fn unmap_page(table: &mut PageTable, start_address: VirtualAddress) -> (r: PageFrame)
    requires
        old(table)@.contains_key(align_down(start_address.0)),
    ensures
        final(table)@ == old(table)@.remove(align_down(start_address.0)),
        r.0 == old(table)@[align_down(start_address.0)].frame,
        table_wf(old(table)@) ==> table_wf(final(table)@),
{
    table.unmap_page(Page::from_address(start_address))
}

/// The page table of an address space, managed from outside of it.
pub struct AddressSpaceManager {
    /// The page table of the address space.
    pub table: PageTable,
}

impl AddressSpaceManager {
    /// Creates the manager of an address space that maps nothing yet.
    pub fn new() -> (r: AddressSpaceManager)
        ensures
            r.table@ == Map::<u64, PageTableEntry>::empty(),
    {
        AddressSpaceManager { table: PageTable::new() }
    }

    /// Returns the number of frames a write of `length` bytes at `address`
    /// takes from the allocator: one for each page it touches that is not
    /// mapped.
    pub fn frames_needed(&self, address: VirtualAddress, length: u64) -> (r: u64)
        requires
            1 <= length,
            address.0 + length - 1 <= u64::MAX,
        ensures
            r == unmapped_pages(self.table@, address.0, length, 0),
    {
        let ghost a = address.0;
        let chunks = write_chunks(address, length);
        let n = chunks.len();
        let mut count: u64 = 0;
        let mut k: usize = n;
        while k > 0
            invariant
                a == address.0,
                1 <= length,
                a + length - 1 <= u64::MAX,
                n == chunks@.len(),
                n == pages_touched(a, length),
                forall|j: int| 0 <= j < n ==> #[trigger] chunks@[j] == spec_write_chunk(a, length, j),
                0 <= k <= n,
                count <= n - k,
                count == unmapped_pages(self.table@, a, length, k as int),
            decreases k,
        {
            k = k - 1;
            let chunk = chunks[k];
            assert(chunk.page_address == chunk_page(a, length, k as int));
            if self.table.get_entry(Page(chunk.page_address)).is_none() {
                count = count + 1;
            }
        }
        count
    }

    /// Maps the page at the given address to a frame taken from the
    /// allocator, with the given flags.
    ///
    /// The page must not be mapped yet, and a frame must be left.
    pub fn map_page(&mut self, page_address: VirtualAddress, flags: PageFlags, allocator: &mut FrameAllocator)
        requires
            !old(self).table@.contains_key(align_down(page_address.0)),
            old(allocator).wf(),
            old(allocator).list@.len() > 0,
        ensures
            final(allocator).wf(),
            final(self).table@ == old(self).table@.insert(
                align_down(page_address.0),
                PageTableEntry { frame: old(allocator).list@[0].start, flags: spec_convert_flags(flags) },
            ),
            final(allocator).free_frames == old(allocator).free_frames - 1,
            table_wf(old(self).table@) && frames_allocated(old(self).table@, *old(allocator)) ==> table_wf(
                final(self).table@,
            ) && frames_allocated(final(self).table@, *final(allocator)),
    {
        map_page(&mut self.table, page_address, flags, allocator);
    }

    /// Unmaps the page at the given address and returns its frame.
    ///
    /// The page must be mapped.
    pub fn unmap_page(&mut self, start_address: VirtualAddress) -> (r: PageFrame)
        requires
            old(self).table@.contains_key(align_down(start_address.0)),
        ensures
            final(self).table@ == old(self).table@.remove(align_down(start_address.0)),
            r.0 == old(self).table@[align_down(start_address.0)].frame,
            table_wf(old(self).table@) ==> table_wf(final(self).table@),
    {
        unmap_page(&mut self.table, start_address)
    }

    /// Writes the buffer to the address in the managed address space, and
    /// leaves every page it touches present with the given flags.
    ///
    /// A touched page that is not mapped gets a frame from the allocator;
    /// one that is keeps its frame. Byte `i` of the buffer lands at
    /// `address + i`: read through the table it is found there afterwards.
    /// Pages the write does not touch keep their entries, and physical
    /// memory outside the frames of the touched pages is left as it was.
    #[verifier::spinoff_prover]
    pub fn write_to(
        &mut self,
        buffer: &[u8],
        address: VirtualAddress,
        flags: PageFlags,
        memory: &mut PhysicalMemory,
        allocator: &mut FrameAllocator,
    )
        requires
            old(allocator).wf(),
            table_wf(old(self).table@),
            frames_allocated(old(self).table@, *old(allocator)),
            1 <= buffer@.len(),
            address.0 + buffer@.len() - 1 <= u64::MAX,
            old(allocator).free_frames >= unmapped_pages(old(self).table@, address.0, buffer@.len() as u64, 0),
        ensures
            final(allocator).wf(),
            table_wf(final(self).table@),
            frames_allocated(final(self).table@, *final(allocator)),
            forall|i: int|
                0 <= i < buffer@.len() ==> #[trigger] read_virtual(
                    final(self).table@,
                    final(memory)@,
                    (address.0 + i) as u64,
                ) == Some(buffer@[i]),
            forall|k: int|
                0 <= k < pages_touched(address.0, buffer@.len() as u64) ==> {
                    let p = #[trigger] chunk_page(address.0, buffer@.len() as u64, k);
                    &&& final(self).table@.contains_key(p)
                    &&& final(self).table@[p].flags == spec_convert_flags(flags)
                    &&& old(self).table@.contains_key(p) ==> final(self).table@[p].frame == old(
                        self,
                    ).table@[p].frame
                },
            forall|p: u64|
                !is_written_page(address.0, buffer@.len() as u64, p) ==> {
                    &&& #[trigger] final(self).table@.contains_key(p) == old(self).table@.contains_key(p)
                    &&& old(self).table@.contains_key(p) ==> final(self).table@[p] == old(self).table@[p]
                },
            forall|x: u64|
                !in_written_frame(final(self).table@, address.0, buffer@.len() as u64, x) ==> {
                    &&& #[trigger] final(memory)@.contains_key(x) == old(memory)@.contains_key(x)
                    &&& old(memory)@.contains_key(x) ==> final(memory)@[x] == old(memory)@[x]
                },
    {
        let ghost t0 = self.table@;
        let ghost m0 = memory@;
        let length = buffer.len() as u64;
        let ghost a = address.0;
        let ghost l = length;
        let chunks = write_chunks(address, length);
        let n = chunks.len();
        let entry_flags = convert_flags(flags);
        proof {
            lemma_convert_present(flags);
        }
        let mut k: usize = 0;
        while k < n
            invariant
                a == address.0,
                l == length,
                length == buffer@.len(),
                1 <= l,
                a + l - 1 <= u64::MAX,
                n == chunks@.len(),
                n == pages_touched(a, l),
                forall|j: int| 0 <= j < n ==> #[trigger] chunks@[j] == spec_write_chunk(a, l, j),
                entry_flags.bits == spec_convert_flags(flags),
                entry_flags.bits & ENTRY_PRESENT == ENTRY_PRESENT,
                0 <= k <= n,
                allocator.wf(),
                table_wf(self.table@),
                frames_allocated(self.table@, *allocator),
                allocator.free_frames >= unmapped_pages(t0, a, l, k as int),
                forall|j: int|
                    k <= j < n ==> {
                        &&& #[trigger] self.table@.contains_key(chunk_page(a, l, j)) == t0.contains_key(
                            chunk_page(a, l, j),
                        )
                        &&& t0.contains_key(chunk_page(a, l, j)) ==> self.table@[chunk_page(a, l, j)]
                            == t0[chunk_page(a, l, j)]
                    },
                forall|j: int|
                    0 <= j < k ==> {
                        let p = #[trigger] chunk_page(a, l, j);
                        &&& self.table@.contains_key(p)
                        &&& self.table@[p].flags == spec_convert_flags(flags)
                        &&& t0.contains_key(p) ==> self.table@[p].frame == t0[p].frame
                    },
                forall|p: u64|
                    !is_written_page(a, l, p) ==> {
                        &&& #[trigger] self.table@.contains_key(p) == t0.contains_key(p)
                        &&& t0.contains_key(p) ==> self.table@[p] == t0[p]
                    },
                forall|i: int|
                    0 <= i < l && chunk_of_byte(a, i) < k ==> #[trigger] read_virtual(
                        self.table@,
                        memory@,
                        (a + i) as u64,
                    ) == Some(buffer@[i]),
                forall|x: u64|
                    !in_written_frame(self.table@, a, l, x) ==> {
                        &&& #[trigger] memory@.contains_key(x) == m0.contains_key(x)
                        &&& m0.contains_key(x) ==> memory@[x] == m0[x]
                    },
            decreases n - k,
        {
            let chunk = chunks[k];
            let ghost kk = k as int;
            let ghost pk = chunk_page(a, l, kk);
            proof {
                lemma_chunk_page(a, l, kk);
                assert(chunk == spec_write_chunk(a, l, kk));
                if !self.table@.contains_key(pk) {
                    assert(!t0.contains_key(pk));
                    assert(unmapped_pages(t0, a, l, kk) >= 1);
                    lemma_frames_left(*allocator);
                }
            }
            let page = Page(chunk.page_address);
            let ghost t_b = self.table@;
            let ghost m_b = memory@;
            self.table.change_permissions_or_map(page, PageTableEntryFlags { bits: ENTRY_WRITABLE }, allocator);
            let entry = self.table.get_entry(page).unwrap();
            let bytes = chunk_bytes(buffer, chunk);
            let ghost frame = entry.frame;
            memory.write(PhysicalAddress(entry.frame + chunk.offset), bytes);
            self.table.set_flags(page, entry_flags);
            proof {
                let t_n = self.table@;
                let m_n = memory@;
                let start = frame + chunk.offset;
                assert(m_n == written(m_b, start, bytes@));
                assert(t_n.contains_key(pk) && t_n[pk].frame == frame);
                assert(t_b.contains_key(pk) ==> frame == t_b[pk].frame);
                // entries other than that of page k are unchanged
                assert forall|q: u64| q != pk implies #[trigger] t_n.contains_key(q) == t_b.contains_key(q) && (
                t_b.contains_key(q) ==> t_n[q] == t_b[q]) by {}
                // the unmapped pages still to come
                assert(unmapped_pages(t0, a, l, kk) == (if t0.contains_key(pk) {
                    0nat
                } else {
                    1nat
                }) + unmapped_pages(t0, a, l, kk + 1));
                // the pages still to come
                assert forall|j: int| kk + 1 <= j < n implies {
                    &&& #[trigger] t_n.contains_key(chunk_page(a, l, j)) == t0.contains_key(chunk_page(a, l, j))
                    &&& t0.contains_key(chunk_page(a, l, j)) ==> t_n[chunk_page(a, l, j)] == t0[chunk_page(
                        a,
                        l,
                        j,
                    )]
                } by {
                    assert(chunk_page(a, l, j) != pk);
                }
                // the pages done
                assert forall|j: int| 0 <= j < kk + 1 implies {
                    let p = #[trigger] chunk_page(a, l, j);
                    &&& t_n.contains_key(p)
                    &&& t_n[p].flags == spec_convert_flags(flags)
                    &&& t0.contains_key(p) ==> t_n[p].frame == t0[p].frame
                } by {
                    if j < kk {
                        assert(chunk_page(a, l, j) != pk);
                    }
                }
                // the pages not written
                assert forall|p: u64| !is_written_page(a, l, p) implies {
                    &&& #[trigger] t_n.contains_key(p) == t0.contains_key(p)
                    &&& t0.contains_key(p) ==> t_n[p] == t0[p]
                } by {
                    if p == pk {
                        assert(is_written_page(a, l, p));
                    }
                }
                // the bytes written before
                assert forall|i: int| 0 <= i < l && chunk_of_byte(a, i) < kk + 1 implies #[trigger] read_virtual(
                    t_n,
                    m_n,
                    (a + i) as u64,
                ) == Some(buffer@[i]) by {
                    lemma_write_chunks_place_bytes(a, l, i);
                    let j = chunk_of_byte(a, i);
                    let c = spec_write_chunk(a, l, j);
                    lemma_chunk_page(a, l, j);
                    let r = c.offset + (i - c.buffer_position);
                    lemma_page_parts(c.page_address, r);
                    assert(align_down((a + i) as u64) == c.page_address);
                    let pa = (t_n[c.page_address].frame + r) as u64;
                    if j < kk {
                        assert(c.page_address != pk);
                        assert(read_virtual(t_b, m_b, (a + i) as u64) == Some(buffer@[i]));
                        assert(t_n[c.page_address] == t_b[c.page_address]);
                        assert(spec_translate(t_n, (a + i) as u64) == Some(pa));
                        assert(t_n.contains_key(c.page_address) && t_n.contains_key(pk));
                        assert(t_n[c.page_address].frame != frame);
                        lemma_frames_apart(t_n[c.page_address].frame, frame);
                        assert(m_n[pa] == m_b[pa]);
                    } else {
                        assert(j == kk);
                        assert(spec_translate(t_n, (a + i) as u64) == Some(pa));
                        assert(pa == start + (i - c.buffer_position));
                        assert(bytes@[i - c.buffer_position] == buffer@[i]);
                    }
                }
                // the memory outside the written frames
                assert forall|x: u64| !in_written_frame(t_n, a, l, x) implies {
                    &&& #[trigger] m_n.contains_key(x) == m0.contains_key(x)
                    &&& m0.contains_key(x) ==> m_n[x] == m0[x]
                } by {
                    if frame <= x < frame + PAGE_SIZE {
                        assert(t_n.contains_key(chunk_page(a, l, kk)));
                        assert(in_written_frame(t_n, a, l, x));
                    }
                    if in_written_frame(t_b, a, l, x) {
                        let j = choose|j: int|
                            0 <= j < pages_touched(a, l) && #[trigger] t_b.contains_key(chunk_page(a, l, j))
                                && t_b[chunk_page(a, l, j)].frame <= x < t_b[chunk_page(a, l, j)].frame + PAGE_SIZE;
                        assert(t_n.contains_key(chunk_page(a, l, j)));
                        assert(in_written_frame(t_n, a, l, x));
                    }
                    assert(!(start <= x < start + bytes@.len()));
                    assert(m_n.contains_key(x) == m_b.contains_key(x));
                    assert(m_b.contains_key(x) ==> m_n[x] == m_b[x]);
                    assert(m_b.contains_key(x) == m0.contains_key(x));
                }
            }
            k = k + 1;
        }
    }
}

} // verus!
