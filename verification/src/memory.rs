//! Addresses, memory areas and page flags.

use vstd::prelude::*;

verus! {

/// The size of a single page.
pub const PAGE_SIZE: u64 = 0x1000;

/// The offset at which the kernel maps all of physical memory.
pub const KERNEL_OFFSET: u64 = 0xffff800000000000;

/// The maximum address of the lower part of the virtual address space.
pub const VIRTUAL_LOW_MAX_ADDRESS: u64 = 0x00007fffffffffff;

/// The minimum address of the higher part of the virtual address space.
pub const VIRTUAL_HIGH_MIN_ADDRESS: u64 = 0xffff800000000000;

/// Represents something that can act like an address.
pub trait Address: Sized + Copy {
    /// The numeric value of the address.
    spec fn addr(&self) -> u64;

    /// Returns the value of the address as a `u64`.
    fn as_u64(&self) -> (r: u64)
        ensures
            r == self.addr(),
    ;

    /// Creates a value of the address type from a `u64`.
    fn from_u64(addr: u64) -> (r: Self)
        ensures
            r.addr() == addr,
    ;

    /// Aligns the address to the next page border, rounded down.
    fn page_align_down(self) -> (r: Self)
        ensures
            r.addr() == self.addr() - self.addr() % PAGE_SIZE,
    {
        let v = self.as_u64();
        Self::from_u64(v - v % PAGE_SIZE)
    }

    /// Returns the offset of the page from the previous page border.
    fn offset_in_page(self) -> (r: u64)
        ensures
            r == self.addr() % PAGE_SIZE,
    {
        self.as_u64() % PAGE_SIZE
    }
}

/// Represents a physical address.
#[derive(Clone, Copy, Debug, PartialEq, Eq, Structural)]
pub struct PhysicalAddress(pub u64);

/// Represents a virtual address.
#[derive(Clone, Copy, Debug, PartialEq, Eq, Structural)]
pub struct VirtualAddress(pub u64);

impl Address for PhysicalAddress {
    open spec fn addr(&self) -> u64 {
        self.0
    }

    fn as_u64(&self) -> (r: u64) {
        self.0
    }

    fn from_u64(addr: u64) -> (r: PhysicalAddress) {
        PhysicalAddress(addr)
    }
}

impl Address for VirtualAddress {
    open spec fn addr(&self) -> u64 {
        self.0
    }

    fn as_u64(&self) -> (r: u64) {
        self.0
    }

    fn from_u64(addr: u64) -> (r: VirtualAddress) {
        VirtualAddress(addr)
    }
}

impl PhysicalAddress {
    /// Returns the physical address corresponding to the constant.
    pub fn from_const(addr: u64) -> (r: PhysicalAddress)
        ensures
            r.0 == addr,
    {
        PhysicalAddress(addr)
    }

    /// Creates the virtual address at which the kernel sees this physical
    /// address.
    pub fn to_virtual(self) -> (r: VirtualAddress)
        requires
            self.0 + KERNEL_OFFSET <= u64::MAX,
        ensures
            r.0 == self.0 + KERNEL_OFFSET,
    {
        VirtualAddress(self.0 + KERNEL_OFFSET)
    }
}

impl VirtualAddress {
    /// Returns the virtual address corresponding to the constant.
    pub fn from_const(addr: u64) -> (r: VirtualAddress)
        ensures
            r.0 == addr,
    {
        VirtualAddress(addr)
    }

    /// Returns the start address of the page with the given number.
    pub fn from_page_num(page_num: u64) -> (r: VirtualAddress)
        requires
            page_num * PAGE_SIZE <= u64::MAX,
        ensures
            r.0 == page_num * PAGE_SIZE,
    {
        VirtualAddress(page_num * PAGE_SIZE)
    }

    /// Returns the number of the page that the address lies in.
    pub fn page_num(self) -> (r: u64)
        ensures
            r == self.0 / PAGE_SIZE,
    {
        self.0 / PAGE_SIZE
    }
}

/// Returns true if the address is a userspace (lower half) address.
pub fn is_userspace_address(address: VirtualAddress) -> (r: bool)
    ensures
        r == (address.0 <= VIRTUAL_LOW_MAX_ADDRESS),
{
    address.0 <= VIRTUAL_LOW_MAX_ADDRESS
}

/// Returns true for an address that is canonical on x86_64.
pub fn valid_address(address: VirtualAddress) -> (r: bool)
    ensures
        r == (address.0 <= VIRTUAL_LOW_MAX_ADDRESS || address.0 >= VIRTUAL_HIGH_MIN_ADDRESS),
{
    address.0 <= VIRTUAL_LOW_MAX_ADDRESS || address.0 >= VIRTUAL_HIGH_MIN_ADDRESS
}

/// Represents a chunk of memory.
#[derive(Clone, Copy)]
pub struct MemoryArea<A: Address> {
    /// The address at which the chunk starts.
    pub start_address: A,
    /// The length of the chunk.
    pub length: u64,
}

impl<A: Address> MemoryArea<A> {
    /// The first address of the area.
    pub open spec fn start(&self) -> int {
        self.start_address.addr() as int
    }

    /// The first address after the area.
    pub open spec fn end(&self) -> int {
        self.start_address.addr() + self.length
    }

    /// The area does not reach beyond the address space.
    pub open spec fn fits(&self) -> bool {
        self.end() <= u64::MAX
    }

    /// True if the address lies within the area.
    pub open spec fn spec_contains(&self, address: int) -> bool {
        self.start() <= address < self.end()
    }

    /// Creates a new MemoryArea.
    pub fn new(start_address: A, length: u64) -> (r: MemoryArea<A>)
        ensures
            r.start_address == start_address,
            r.length == length,
    {
        MemoryArea { start_address, length }
    }

    /// Creates a new MemoryArea between two addresses, in either order.
    ///
    /// The area starts at `start_address`; its length is the distance between
    /// the two addresses.
    pub fn from_start_and_end(start_address: A, end_address: A) -> (r: MemoryArea<A>)
        ensures
            r.start_address == start_address,
            r.length as int == if start_address.addr() > end_address.addr() {
                start_address.addr() - end_address.addr()
            } else {
                end_address.addr() - start_address.addr()
            },
    {
        let s = start_address.as_u64();
        let e = end_address.as_u64();
        if s > e {
            MemoryArea::new(start_address, s - e)
        } else {
            MemoryArea::new(start_address, e - s)
        }
    }

    /// Returns the start address of this memory area.
    pub fn start_address(&self) -> (r: A)
        ensures
            r == self.start_address,
    {
        self.start_address
    }

    /// Returns the end address of this memory area.
    ///
    /// The end address is the address of the first byte not contained in it.
    pub fn end_address(&self) -> (r: A)
        requires
            self.fits(),
        ensures
            r.addr() == self.end(),
    {
        A::from_u64(self.start_address.as_u64() + self.length)
    }

    /// Returns the length in bytes of this memory area.
    pub fn length(&self) -> (r: u64)
        ensures
            r == self.length,
    {
        self.length
    }

    /// Checks if the address is contained within the area.
    pub fn contains(&self, address: A) -> (r: bool)
        requires
            self.fits(),
        ensures
            r == self.spec_contains(address.addr() as int),
    {
        let s = self.start_address.as_u64();
        let a = address.as_u64();
        s <= a && a < s + self.length
    }

    /// Checks if the area is contained within another area.
    pub fn is_contained_in(&self, other: MemoryArea<A>) -> (r: bool)
        requires
            self.fits(),
            other.fits(),
        ensures
            r == (other.start() <= self.start() && other.end() >= self.end()),
    {
        let s = self.start_address.as_u64();
        let os = other.start_address.as_u64();
        os <= s && os + other.length >= s + self.length
    }

    /// Checks if the area overlaps with another area, that is, if either area
    /// contains the start address of the other.
    pub fn overlaps_with(&self, other: MemoryArea<A>) -> (r: bool)
        requires
            self.fits(),
            other.fits(),
        ensures
            r == (self.spec_contains(other.start()) || other.spec_contains(self.start())),
    {
        self.contains(other.start_address) || other.contains(self.start_address)
    }
}

impl MemoryArea<PhysicalAddress> {
    /// Returns the same area except for the first frame.
    ///
    /// The start address must be page aligned and the area at least one page
    /// long.
    pub fn without_first_frame(&self) -> (r: MemoryArea<PhysicalAddress>)
        requires
            self.start_address.0 % PAGE_SIZE == 0,
            self.length >= PAGE_SIZE,
            self.fits(),
        ensures
            r.start_address.0 == self.start_address.0 + PAGE_SIZE,
            r.length == self.length - PAGE_SIZE,
    {
        MemoryArea {
            start_address: PhysicalAddress(self.start_address.0 + PAGE_SIZE),
            length: self.length - PAGE_SIZE,
        }
    }
}

impl MemoryArea<VirtualAddress> {
    /// Creates an empty area at address zero.
    pub fn const_default() -> (r: MemoryArea<VirtualAddress>)
        ensures
            r.start_address.0 == 0,
            r.length == 0,
    {
        MemoryArea { start_address: VirtualAddress(0), length: 0 }
    }
}

/// The flags a page could possibly have.
#[derive(Clone, Copy, Debug, PartialEq, Eq, Structural)]
pub struct PageFlags {
    /// The raw flag bits.
    pub bits: u8,
}

/// Set if the page can be read from.
pub const READABLE: u8 = 1;

/// Set if the page can be written to.
pub const WRITABLE: u8 = 2;

/// Set if code on the page can be executed.
pub const EXECUTABLE: u8 = 4;

/// Set if the page should not be cached.
pub const NO_CACHE: u8 = 8;

/// Set if the page should be accessible from user mode.
pub const USER_ACCESSIBLE: u8 = 16;

/// Set if the page is currently present.
pub const PRESENT: u8 = 32;

/// All bits that name a page flag.
pub const PAGE_FLAGS_ALL: u8 = 63;

impl PageFlags {
    /// True if all the given flag bits are set.
    pub open spec fn has(self, flag: u8) -> bool {
        self.bits & flag == flag
    }

    /// The set without any flags.
    pub fn empty() -> (r: PageFlags)
        ensures
            r.bits == 0,
    {
        PageFlags { bits: 0 }
    }

    /// Creates flags from raw bits, dropping the bits that name no flag.
    pub fn from_bits_truncate(bits: u8) -> (r: PageFlags)
        ensures
            r.bits == bits & PAGE_FLAGS_ALL,
    {
        PageFlags { bits: bits & PAGE_FLAGS_ALL }
    }

    /// Returns true if all the given flags are set.
    pub fn contains(&self, flag: u8) -> (r: bool)
        ensures
            r == self.has(flag),
    {
        self.bits & flag == flag
    }

    /// Returns the union of both flag sets.
    pub fn union(self, flag: u8) -> (r: PageFlags)
        ensures
            r.bits == self.bits | flag,
    {
        PageFlags { bits: self.bits | flag }
    }
}

} // verus!
