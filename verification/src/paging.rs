//! Pages, page frames and page table entry flags.

use vstd::prelude::*;
use crate::memory::{
    PageFlags, PhysicalAddress, VirtualAddress, PAGE_SIZE, EXECUTABLE, NO_CACHE, PRESENT, USER_ACCESSIBLE,
    WRITABLE,
};

verus! {

/// Rounds the address down to the start of its page.
pub open spec fn align_down(address: u64) -> u64 {
    (address - address % PAGE_SIZE) as u64
}

proof fn lemma_page_mask(address: u64)
    ensures
        address & !0xfffu64 == align_down(address),
{
    assert(address & !0xfffu64 == address - address % 0x1000) by (bit_vector);
}

/// Represents a page.
#[derive(Clone, Copy, Debug, PartialEq, Eq, Structural)]
pub struct Page(pub u64);

impl Page {
    /// Returns the page that contains the given virtual address.
    pub fn from_address(address: VirtualAddress) -> (r: Page)
        ensures
            r.0 == align_down(address.0),
    {
        proof {
            lemma_page_mask(address.0);
        }
        Page(address.0 & !(PAGE_SIZE - 1))
    }

    /// Returns the virtual address of this page.
    pub fn get_address(&self) -> (r: VirtualAddress)
        ensures
            r.0 == self.0,
    {
        VirtualAddress(self.0)
    }
}

/// Represents a page frame.
#[derive(Debug, PartialEq, Eq, Structural)]
pub struct PageFrame(pub u64);

impl PageFrame {
    /// Returns the page frame that contains the given physical address.
    pub fn from_address(address: PhysicalAddress) -> (r: PageFrame)
        ensures
            r.0 == align_down(address.0),
    {
        proof {
            lemma_page_mask(address.0);
        }
        PageFrame(address.0 & !(PAGE_SIZE - 1))
    }

    /// Returns the physical address of this page frame.
    pub fn get_address(&self) -> (r: PhysicalAddress)
        ensures
            r.0 == self.0,
    {
        PhysicalAddress(self.0)
    }
}

/// The entry maps a page.
pub const ENTRY_PRESENT: u64 = 1;

/// The page may be written to.
pub const ENTRY_WRITABLE: u64 = 2;

/// The page may be accessed from user mode.
pub const ENTRY_USER_ACCESSIBLE: u64 = 4;

/// Accesses to the page are not cached.
pub const ENTRY_DISABLE_CACHE: u64 = 16;

/// The mapping is kept in the TLB across address space switches.
pub const ENTRY_GLOBAL: u64 = 256;

/// Code on the page may not be executed.
pub const ENTRY_NO_EXECUTE: u64 = 0x8000_0000_0000_0000;

/// The flags of an x86_64 page table entry.
#[derive(Clone, Copy, Debug, PartialEq, Eq, Structural)]
pub struct PageTableEntryFlags {
    /// The raw flag bits.
    pub bits: u64,
}

impl PageTableEntryFlags {
    /// True if all the given flag bits are set.
    pub open spec fn has(self, flag: u64) -> bool {
        self.bits & flag == flag
    }
}

/// The entry flag bits that the page flags call for.
pub open spec fn spec_convert_flags(flags: PageFlags) -> u64 {
    ENTRY_PRESENT | (if flags.has(WRITABLE) { ENTRY_WRITABLE } else { 0 }) | (if !flags.has(EXECUTABLE) {
        ENTRY_NO_EXECUTE
    } else {
        0
    }) | (if flags.has(NO_CACHE) { ENTRY_DISABLE_CACHE } else { 0 }) | (if flags.has(USER_ACCESSIBLE) {
        ENTRY_USER_ACCESSIBLE
    } else {
        0
    })
}

/// The entry of a page is always present; it is writable exactly when the
/// page is, not executable exactly when the page is not executable,
/// uncached exactly when the page is, and user accessible exactly when the
/// page is; no other entry bit is set.
pub proof fn lemma_convert_flags_bits(flags: PageFlags)
    ensures
        spec_convert_flags(flags) & 1 == 1,
        (spec_convert_flags(flags) & 0x8000_0000_0000_0000 != 0) == (flags.bits & 4 == 0),
        (spec_convert_flags(flags) & 2 != 0) == (flags.bits & 2 != 0),
        (spec_convert_flags(flags) & 16 != 0) == (flags.bits & 8 != 0),
        (spec_convert_flags(flags) & 4 != 0) == (flags.bits & 16 != 0),
        spec_convert_flags(flags) & !0x8000_0000_0000_0017u64 == 0,
{
    let b = flags.bits;
    let r = spec_convert_flags(flags);
    assert(r == 1u64 | (if b & 2u8 == 2u8 { 2u64 } else { 0u64 }) | (if !(b & 4u8 == 4u8) {
        0x8000_0000_0000_0000u64
    } else {
        0u64
    }) | (if b & 8u8 == 8u8 { 16u64 } else { 0u64 }) | (if b & 16u8 == 16u8 { 4u64 } else { 0u64 }));
    assert({
        &&& r & 1 == 1
        &&& (r & 0x8000_0000_0000_0000 != 0) == (b & 4 == 0)
        &&& (r & 2 != 0) == (b & 2 != 0)
        &&& (r & 16 != 0) == (b & 8 != 0)
        &&& (r & 4 != 0) == (b & 16 != 0)
        &&& r & !0x8000_0000_0000_0017u64 == 0
    }) by (bit_vector)
        requires
            r == 1u64 | (if b & 2u8 == 2u8 { 2u64 } else { 0u64 }) | (if !(b & 4u8 == 4u8) {
                0x8000_0000_0000_0000u64
            } else {
                0u64
            }) | (if b & 8u8 == 8u8 { 16u64 } else { 0u64 }) | (if b & 16u8 == 16u8 { 4u64 } else { 0u64 }),
    ;
}

/// Reading the flags back from an entry made from page flags gives those
/// page flags, but for readability, which every present entry implies, and
/// with the present flag added.
pub proof fn lemma_page_flags_of_converted(flags: PageFlags)
    ensures
        spec_page_flags(Some(PageTableEntryFlags { bits: spec_convert_flags(flags) })) == 32u8 | (flags.bits
            & 30u8),
{
    lemma_convert_flags_bits(flags);
    let b = flags.bits;
    let r = spec_convert_flags(flags);
    let e = PageTableEntryFlags { bits: r };
    assert(e.has(ENTRY_PRESENT));
    let g = spec_page_flags(Some(e));
    assert(g == 32u8 | (if r & 2u64 == 2u64 { 2u8 } else { 0u8 }) | (if !(r & 0x8000_0000_0000_0000u64
        == 0x8000_0000_0000_0000u64) { 4u8 } else { 0u8 }) | (if r & 16u64 == 16u64 { 8u8 } else { 0u8 }) | (
    if r & 4u64 == 4u64 { 16u8 } else { 0u8 }));
    assert(g == 32u8 | (b & 30u8)) by (bit_vector)
        requires
            g == 32u8 | (if r & 2u64 == 2u64 { 2u8 } else { 0u8 }) | (if !(r & 0x8000_0000_0000_0000u64
                == 0x8000_0000_0000_0000u64) { 4u8 } else { 0u8 }) | (if r & 16u64 == 16u64 { 8u8 } else { 0u8 })
                | (if r & 4u64 == 4u64 { 16u8 } else { 0u8 }),
            (r & 0x8000_0000_0000_0000 != 0) == (b & 4 == 0),
            (r & 2 != 0) == (b & 2 != 0),
            (r & 16 != 0) == (b & 8 != 0),
            (r & 4 != 0) == (b & 16 != 0),
    ;
}

/// The page flags read from an entry: none for an absent entry; for a
/// present one, the present flag, and writable, uncached and user
/// accessible exactly when the entry is, and executable exactly when the
/// entry's no-execute bit is clear.
pub proof fn lemma_page_flags_bits(e: PageTableEntryFlags)
    ensures
        spec_page_flags(None) == 0,
        e.bits & 1 == 0 ==> spec_page_flags(Some(e)) == 0,
        e.bits & 1 == 1 ==> {
            let g = spec_page_flags(Some(e));
            &&& g & 32 == 32
            &&& (g & 2 != 0) == (e.bits & 2 != 0)
            &&& (g & 4 != 0) == (e.bits & 0x8000_0000_0000_0000 == 0)
            &&& (g & 8 != 0) == (e.bits & 16 != 0)
            &&& (g & 16 != 0) == (e.bits & 4 != 0)
            &&& g & !62u8 == 0
        },
{
    let r = e.bits;
    let g = spec_page_flags(Some(e));
    if r & 1 == 1 {
        assert(g == 32u8 | (if r & 2u64 == 2u64 { 2u8 } else { 0u8 }) | (if !(r & 0x8000_0000_0000_0000u64
            == 0x8000_0000_0000_0000u64) { 4u8 } else { 0u8 }) | (if r & 16u64 == 16u64 { 8u8 } else { 0u8 }) | (
        if r & 4u64 == 4u64 { 16u8 } else { 0u8 }));
        assert({
            &&& g & 32 == 32
            &&& (g & 2 != 0) == (r & 2 != 0)
            &&& (g & 4 != 0) == (r & 0x8000_0000_0000_0000 == 0)
            &&& (g & 8 != 0) == (r & 16 != 0)
            &&& (g & 16 != 0) == (r & 4 != 0)
            &&& g & !62u8 == 0
        }) by (bit_vector)
            requires
                g == 32u8 | (if r & 2u64 == 2u64 { 2u8 } else { 0u8 }) | (if !(r & 0x8000_0000_0000_0000u64
                    == 0x8000_0000_0000_0000u64) { 4u8 } else { 0u8 }) | (if r & 16u64 == 16u64 { 8u8 } else { 0u8 })
                    | (if r & 4u64 == 4u64 { 16u8 } else { 0u8 }),
        ;
    }
}

/// Converts the general page flags to x86_64 page table entry flags: the
/// entry is present; writable, not executable, uncached and user accessible
/// as the flags say.
pub fn convert_flags(flags: PageFlags) -> (r: PageTableEntryFlags)
    ensures
        r.bits == spec_convert_flags(flags),
        r.bits & 1 == 1,
        (r.bits & 0x8000_0000_0000_0000 != 0) == (flags.bits & 4 == 0),
        (r.bits & 2 != 0) == (flags.bits & 2 != 0),
        (r.bits & 16 != 0) == (flags.bits & 8 != 0),
        (r.bits & 4 != 0) == (flags.bits & 16 != 0),
        r.bits & !0x8000_0000_0000_0017u64 == 0,
{
    proof {
        lemma_convert_flags_bits(flags);
    }
    let writable: u64 = if flags.contains(WRITABLE) { ENTRY_WRITABLE } else { 0 };
    let no_execute: u64 = if !flags.contains(EXECUTABLE) { ENTRY_NO_EXECUTE } else { 0 };
    let disable_cache: u64 = if flags.contains(NO_CACHE) { ENTRY_DISABLE_CACHE } else { 0 };
    let user: u64 = if flags.contains(USER_ACCESSIBLE) { ENTRY_USER_ACCESSIBLE } else { 0 };
    PageTableEntryFlags { bits: ENTRY_PRESENT | writable | no_execute | disable_cache | user }
}

/// The page flag bits that the flags of a page table entry stand for: none
/// for a page that is not mapped.
pub open spec fn spec_page_flags(entry: Option<PageTableEntryFlags>) -> u8 {
    match entry {
        None => 0,
        Some(e) => if !e.has(ENTRY_PRESENT) {
            0
        } else {
            PRESENT | (if e.has(ENTRY_WRITABLE) {
            WRITABLE
        } else {
            0
        }) | (if !e.has(ENTRY_NO_EXECUTE) { EXECUTABLE } else { 0 }) | (if e.has(ENTRY_DISABLE_CACHE) {
            NO_CACHE
        } else {
            0
        }) | (if e.has(ENTRY_USER_ACCESSIBLE) { USER_ACCESSIBLE } else { 0 })
        },
    }
}

/// Returns the page flags of a page, given the flags of its page table
/// entry, or `None` if the page has no entry. A page whose entry is not
/// present has no flags.
pub fn get_page_flags(entry: Option<PageTableEntryFlags>) -> (r: PageFlags)
    ensures
        r.bits == spec_page_flags(entry),
{
    match entry {
        None => PageFlags::empty(),
        Some(e) => {
            if e.bits & ENTRY_PRESENT != ENTRY_PRESENT {
                return PageFlags::empty();
            }
            let present: u8 = PRESENT;
            let writable: u8 = if e.bits & ENTRY_WRITABLE == ENTRY_WRITABLE { WRITABLE } else { 0 };
            let executable: u8 = if !(e.bits & ENTRY_NO_EXECUTE == ENTRY_NO_EXECUTE) { EXECUTABLE } else { 0 };
            let no_cache: u8 = if e.bits & ENTRY_DISABLE_CACHE == ENTRY_DISABLE_CACHE { NO_CACHE } else { 0 };
            let user: u8 = if e.bits & ENTRY_USER_ACCESSIBLE == ENTRY_USER_ACCESSIBLE {
                USER_ACCESSIBLE
            } else {
                0
            };
            PageFlags { bits: present | writable | executable | no_cache | user }
        },
    }
}

/// The part of a write that falls on one page.
#[derive(Clone, Copy, Debug, PartialEq, Eq, Structural)]
pub struct WriteChunk {
    /// The address of the page.
    pub page_address: u64,
    /// The offset within the page at which the write starts.
    pub offset: u64,
    /// The number of bytes written on the page.
    pub length: u64,
    /// The position in the buffer of the first byte written on the page.
    pub buffer_position: u64,
}

/// The chunk of a write of `length` bytes at `address` that falls on page
/// `k` of the pages it touches.
pub open spec fn spec_write_chunk(address: u64, length: u64, k: int) -> WriteChunk {
    let first = (address % PAGE_SIZE) as int;
    let offset = if k == 0 { first } else { 0 };
    let position = if k == 0 { 0 } else { k * PAGE_SIZE - first };
    let rest = length - position;
    WriteChunk {
        page_address: (((address / PAGE_SIZE) as int + k) * PAGE_SIZE) as u64,
        offset: offset as u64,
        length: (if PAGE_SIZE - offset >= rest { rest } else { PAGE_SIZE - offset }) as u64,
        buffer_position: position as u64,
    }
}

/// The number of pages from the page of `address` up to and including the
/// page of the last byte of a write of `length` bytes.
pub open spec fn pages_touched(address: u64, length: u64) -> int {
    (address + length - 1) / PAGE_SIZE as int + 1 - (address / PAGE_SIZE) as int
}

/// Splits a write of `length` bytes at `address` into the parts that fall
/// on each page, in order.
///
/// The part on a page takes the bytes of the buffer from its buffer
/// position on, so that the byte at `address + i` receives byte `i` of the
/// buffer.
pub fn write_chunks(address: VirtualAddress, length: u64) -> (r: Vec<WriteChunk>)
    requires
        1 <= address.0 + length,
        address.0 + length - 1 <= u64::MAX,
    ensures
        r@.len() == pages_touched(address.0, length),
        forall|k: int| 0 <= k < r@.len() ==> #[trigger] r@[k] == spec_write_chunk(address.0, length, k),
{
    let start_page_num = address.0 / PAGE_SIZE;
    let last_address = if length > 0 { address.0 + (length - 1) } else { address.0 - 1 };
    let end_page_num = last_address / PAGE_SIZE + 1;
    let first_offset = address.0 % PAGE_SIZE;
    let mut current_offset = first_offset;
    let mut current_position: u64 = 0;
    let mut chunks: Vec<WriteChunk> = Vec::new();
    let mut page_num = start_page_num;
    while page_num < end_page_num
        invariant
            start_page_num == address.0 / PAGE_SIZE,
            end_page_num == (address.0 + length - 1) / PAGE_SIZE as int + 1,
            first_offset == address.0 % PAGE_SIZE,
            start_page_num <= page_num <= end_page_num,
            address.0 + length - 1 <= u64::MAX,
            chunks@.len() == page_num - start_page_num,
            page_num < end_page_num ==> current_offset == if page_num == start_page_num {
                first_offset
            } else {
                0
            },
            page_num < end_page_num ==> current_position == if page_num == start_page_num {
                0
            } else {
                (page_num - start_page_num) * PAGE_SIZE - first_offset
            },
            page_num < end_page_num ==> address.0 + current_position == page_num * PAGE_SIZE + current_offset,
            page_num < end_page_num ==> current_position <= length,
            current_offset < PAGE_SIZE,
            forall|k: int| 0 <= k < chunks@.len() ==> #[trigger] chunks@[k] == spec_write_chunk(
                address.0,
                length,
                k,
            ),
        decreases end_page_num - page_num,
    {
        let rest = length - current_position;
        let write_length = if PAGE_SIZE - current_offset >= rest {
            rest
        } else {
            PAGE_SIZE - current_offset
        };
        let chunk = WriteChunk {
            page_address: page_num * PAGE_SIZE,
            offset: current_offset,
            length: write_length,
            buffer_position: current_position,
        };
        proof {
            let k = page_num - start_page_num;
            assert(chunk == spec_write_chunk(address.0, length, k));
        }
        chunks.push(chunk);
        current_position = current_position + write_length;
        current_offset = (current_offset + write_length) % PAGE_SIZE;
        page_num = page_num + 1;
    }
    chunks
}

/// Returns the bytes of the buffer that a part of a write puts on its page:
/// those from its buffer position on, as many as it is long.
pub fn chunk_bytes<'a>(buffer: &'a [u8], chunk: WriteChunk) -> (r: &'a [u8])
    requires
        chunk.buffer_position + chunk.length <= buffer@.len(),
    ensures
        r@ == buffer@.subrange(
            chunk.buffer_position as int,
            chunk.buffer_position + chunk.length,
        ),
{
    let n = buffer.len();
    assert(chunk.buffer_position + chunk.length <= n);
    let start = chunk.buffer_position as usize;
    let end = start + chunk.length as usize;
    &buffer[start..end]
}

/// A write is split into parts that cover its bytes without gap or
/// overlap: the first part starts at the address, each part ends where the
/// next one starts, and the last part ends after `length` bytes.
pub proof fn lemma_write_chunks_cover(address: u64, length: u64)
    requires
        1 <= length,
        address + length - 1 <= u64::MAX,
    ensures
        pages_touched(address, length) >= 1,
        ({
            let c = spec_write_chunk(address, length, 0);
            c.page_address + c.offset == address
        }),
        forall|k: int| 0 <= k < pages_touched(address, length) - 1 ==> {
            let c = #[trigger] spec_write_chunk(address, length, k);
            let d = spec_write_chunk(address, length, k + 1);
            c.page_address + c.offset + c.length == d.page_address + d.offset
        },
        ({
            let c = spec_write_chunk(address, length, pages_touched(address, length) - 1);
            c.page_address + c.offset + c.length == address + length
        }),
        forall|k: int| 0 <= k < pages_touched(address, length) ==> {
            let c = #[trigger] spec_write_chunk(address, length, k);
            &&& c.page_address + c.offset == address + c.buffer_position
            &&& c.buffer_position + c.length <= length
        },
{
    let a = address as int;
    let l = length as int;
    let p = 4096int;
    let q = a / p;
    let f = a % p;
    let last = (a + l - 1) / p;
    assert(a == q * p + f && 0 <= f < p) by (nonlinear_arith)
        requires
            q == a / p,
            f == a % p,
            p == 4096,
    ;
    assert(last >= q && a + l - 1 < (last + 1) * p && last * p <= a + l - 1) by (nonlinear_arith)
        requires
            last == (a + l - 1) / p,
            q == a / p,
            a >= 0,
            l >= 1,
            p == 4096,
    ;
    assert forall|k: int| 0 <= k < pages_touched(address, length) - 1 implies {
        let c = #[trigger] spec_write_chunk(address, length, k);
        let d = spec_write_chunk(address, length, k + 1);
        c.page_address + c.offset + c.length == d.page_address + d.offset
    } by {
        assert((q + k + 1) * p <= last * p) by (nonlinear_arith)
            requires
                q + k + 1 <= last,
                p == 4096,
        ;
        assert((q + k) * p + p == (q + k + 1) * p) by (nonlinear_arith);
        assert(q * p + k * p == (q + k) * p) by (nonlinear_arith);
        assert(0 <= k * p) by (nonlinear_arith)
            requires
                0 <= k,
                p == 4096,
        ;
    }
    assert forall|k: int| 0 <= k < pages_touched(address, length) implies {
        let c = #[trigger] spec_write_chunk(address, length, k);
        &&& c.page_address + c.offset == address + c.buffer_position
        &&& c.buffer_position + c.length <= length
    } by {
        assert((q + k) * p <= last * p) by (nonlinear_arith)
            requires
                q + k <= last,
                p == 4096,
        ;
        assert(q * p + k * p == (q + k) * p) by (nonlinear_arith);
        assert(0 <= k * p) by (nonlinear_arith)
            requires
                0 <= k,
                p == 4096,
        ;
        if k >= 1 {
            assert(k * p >= p) by (nonlinear_arith)
                requires
                    k >= 1,
                    p == 4096,
            ;
        }
    }
    let n = last + 1 - q;
    assert((q + n - 1) * p == last * p);
    assert(q * p + (n - 1) * p == (q + n - 1) * p) by (nonlinear_arith);
    assert(0 <= (n - 1) * p) by (nonlinear_arith)
        requires
            1 <= n,
            p == 4096,
    ;
}

/// The part of a write at `address` that byte `i` of the buffer falls in:
/// the page of `address + i`, counted from the page of `address`.
pub open spec fn chunk_of_byte(address: u64, i: int) -> int {
    (address + i) / PAGE_SIZE as int - (address / PAGE_SIZE) as int
}

/// Each byte `i` of the buffer lies in exactly the part on the page of
/// `address + i`, within that part's share of the buffer, and is written
/// there at `address + i`.
pub proof fn lemma_write_chunks_place_bytes(address: u64, length: u64, i: int)
    requires
        1 <= length,
        address + length - 1 <= u64::MAX,
        0 <= i < length,
    ensures
        0 <= chunk_of_byte(address, i) < pages_touched(address, length),
        ({
            let c = spec_write_chunk(address, length, chunk_of_byte(address, i));
            &&& c.buffer_position <= i < c.buffer_position + c.length
            &&& c.page_address + c.offset + (i - c.buffer_position) == address + i
        }),
{
    let a = address as int;
    let l = length as int;
    let p = 4096int;
    let q = a / p;
    let f = a % p;
    let last = (a + l - 1) / p;
    let m = (a + i) / p;
    let r = (a + i) % p;
    let k = m - q;
    assert(a == q * p + f && 0 <= f < p) by (nonlinear_arith)
        requires
            q == a / p,
            f == a % p,
            p == 4096,
    ;
    assert(a + i == m * p + r && 0 <= r < p) by (nonlinear_arith)
        requires
            m == (a + i) / p,
            r == (a + i) % p,
            p == 4096,
            a + i >= 0,
    ;
    assert(q <= m <= last) by (nonlinear_arith)
        requires
            q == a / p,
            m == (a + i) / p,
            last == (a + l - 1) / p,
            0 <= i <= l - 1,
            a >= 0,
            p == 4096,
    ;
    assert(m * p == q * p + k * p) by (nonlinear_arith)
        requires
            k == m - q,
    ;
    assert(k * p >= 0) by (nonlinear_arith)
        requires
            k >= 0,
            p == 4096,
    ;
    assert(k == chunk_of_byte(address, i));
    let c = spec_write_chunk(address, length, k);
    assert(c.page_address == m * p);
    if k == 0 {
        assert(r == f + i);
    } else {
        assert(k * p >= p) by (nonlinear_arith)
            requires
                k >= 1,
                p == 4096,
        ;
        assert(c.buffer_position == k * p - f);
    }
}

} // verus!
