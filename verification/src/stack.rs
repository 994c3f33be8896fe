//! Stacks that grow and shrink page by page.
//!
//! Only full descending stacks are supported: the value pointed to is used
//! and the stack grows downward. The functions here say which pages to map
//! or unmap; the architecture code does it.

use vstd::prelude::*;
use crate::address_space::{Segment, SegmentType};
use crate::memory::{MemoryArea, PageFlags, VirtualAddress, PAGE_SIZE, READABLE, USER_ACCESSIBLE, WRITABLE};

verus! {

/// Represents the different types of stacks that exist.
#[derive(Clone, Copy, Debug, PartialEq, Eq, Structural)]
pub enum StackType {
    /// The value currently pointed to is used and the stack grows downward.
    FullDescending,
}

/// Determines the type of accesses possible for this stack.
#[derive(Clone, Copy, Debug, PartialEq, Eq, Structural)]
pub enum AccessType {
    /// The stack can be accessed by usermode code.
    UserAccessible,
    /// The stack can only be accessed by the kernel.
    KernelOnly,
}

/// A range of pages, by page number: from `first` up to but excluding
/// `last`.
#[derive(Clone, Copy, Debug, PartialEq, Eq, Structural)]
pub struct PageRange {
    /// The number of the first page.
    pub first: u64,
    /// The number of the page after the last one.
    pub last: u64,
}

/// What a change of the stack size asks of the address space.
#[derive(Clone, Copy, Debug, PartialEq, Eq, Structural)]
pub enum StackChange {
    /// Map the pages with the given flags.
    MapPages(PageRange, PageFlags),
    /// Unmap the pages.
    UnmapPages(PageRange),
}

/// Represents a stack.
#[derive(Clone, Copy, Debug)]
pub struct Stack {
    /// The top address of the stack.
    pub top_address: u64,
    /// The bottom address of the stack.
    pub bottom_address: u64,
    /// The maximum stack size.
    pub max_size: u64,
    /// The first address of the stack.
    pub base_stack_pointer: u64,
    /// The access type for this stack.
    pub access_type: AccessType,
}

/// The page flags a stack with the given access type is mapped with.
pub open spec fn spec_stack_flags(access_type: AccessType) -> u8 {
    if access_type == AccessType::UserAccessible {
        READABLE | WRITABLE | USER_ACCESSIBLE
    } else {
        READABLE | WRITABLE
    }
}

/// A stack's pages are readable and writable, and user accessible exactly
/// for a user stack; no other page flag is set.
pub proof fn lemma_stack_flags_bits(access_type: AccessType)
    ensures
        spec_stack_flags(access_type) & 1 == 1,
        spec_stack_flags(access_type) & 2 == 2,
        (spec_stack_flags(access_type) & 16 != 0) == (access_type == AccessType::UserAccessible),
        spec_stack_flags(access_type) & !0x13u8 == 0,
{
    let r = spec_stack_flags(access_type);
    assert(1u8 | 2u8 | 16u8 == 0x13u8 && 1u8 | 2u8 == 3u8) by (bit_vector);
    if access_type == AccessType::UserAccessible {
        assert(r == 0x13u8);
    } else {
        assert(r == 3u8);
    }
    assert(r == 0x13u8 || r == 3u8);
    assert(0x13u8 & 1 == 1 && 0x13u8 & 2 == 2 && 0x13u8 & 16 != 0 && 0x13u8 & !0x13u8 == 0) by (bit_vector);
    assert(3u8 & 1 == 1 && 3u8 & 2 == 2 && 3u8 & 16 == 0 && 3u8 & !0x13u8 == 0) by (bit_vector);
}

/// The pages a stack that grows from `bottom` down to `new_bottom` maps.
pub open spec fn pages_below(new_bottom: u64, bottom: u64) -> PageRange {
    PageRange { first: new_bottom / PAGE_SIZE, last: bottom / PAGE_SIZE }
}

/// The bottom of the stack after growing by `amount`: no lower than its
/// maximum size allows.
pub open spec fn grown_bottom(stack: Stack, amount: u64) -> u64 {
    if stack.top_address - stack.max_size > stack.bottom_address - amount {
        (stack.top_address - stack.max_size) as u64
    } else {
        (stack.bottom_address - amount) as u64
    }
}

/// The bottom of the stack after shrinking by `amount`: no higher than its
/// top.
pub open spec fn shrunk_bottom(stack: Stack, amount: u64) -> u64 {
    if stack.top_address < stack.bottom_address + amount {
        stack.top_address
    } else {
        (stack.bottom_address + amount) as u64
    }
}

/// Shrinking a stack by the amount it has just grown, when that growth
/// stayed within the maximum size, restores its bottom and unmaps exactly
/// the pages the growth mapped.
pub proof fn lemma_shrink_undoes_grow(stack: Stack, amount: u64)
    requires
        stack.wf(),
        amount <= stack.bottom_address,
        stack.bottom_address - amount >= stack.top_address - stack.max_size,
    ensures
        ({
            let grown = Stack { bottom_address: grown_bottom(stack, amount), ..stack };
            &&& grown.wf()
            &&& shrunk_bottom(grown, amount) == stack.bottom_address
            &&& pages_below(grown.bottom_address, stack.bottom_address) == pages_below(
                grown.bottom_address,
                shrunk_bottom(grown, amount),
            )
        }),
{
}

impl Stack {
    /// The stack lies below its top and within its maximum size.
    pub open spec fn wf(&self) -> bool {
        &&& self.max_size <= self.top_address
        &&& self.top_address - self.max_size <= self.bottom_address <= self.top_address
        &&& self.max_size <= i64::MAX
    }

    /// Returns the flags the pages of the stack are mapped with.
    pub fn page_flags(&self) -> (r: PageFlags)
        ensures
            r.bits == spec_stack_flags(self.access_type),
            r.bits & 1 == 1,
            r.bits & 2 == 2,
            (r.bits & 16 != 0) == (self.access_type == AccessType::UserAccessible),
            r.bits & !0x13u8 == 0,
    {
        proof {
            lemma_stack_flags_bits(self.access_type);
        }
        let mut flags = PageFlags { bits: READABLE | WRITABLE };
        if self.access_type == AccessType::UserAccessible {
            flags = flags.union(USER_ACCESSIBLE);
        }
        flags
    }

    /// Returns the segment that holds the stack at its maximum size.
    pub fn segment(&self) -> (r: Segment)
        requires
            self.max_size <= self.top_address,
        ensures
            r.memory_area.start_address.0 == self.top_address - self.max_size,
            r.memory_area.length == self.max_size,
            r.flags.bits == spec_stack_flags(self.access_type),
            r.segment_type == SegmentType::MemoryOnly,
    {
        let start_address = VirtualAddress(self.top_address - self.max_size);
        Segment::new(MemoryArea::new(start_address, self.max_size), self.page_flags(), SegmentType::MemoryOnly)
    }

    /// Creates a new stack of the given initial size below the start
    /// address, and returns the pages that size asks for.
    pub fn new(initial_size: u64, max_size: u64, start_address: VirtualAddress, access_type: AccessType) -> (r: (
        Stack,
        StackChange,
    ))
        requires
            max_size <= start_address.0,
            max_size <= i64::MAX,
            initial_size <= i64::MAX,
            initial_size <= start_address.0,
        ensures
            r.0.wf(),
            r.0.top_address == start_address.0,
            r.0.base_stack_pointer == start_address.0,
            r.0.max_size == max_size,
            r.0.access_type == access_type,
            initial_size > 0 ==> {
                let new_bottom = if start_address.0 - max_size > start_address.0 - initial_size {
                    start_address.0 - max_size
                } else {
                    start_address.0 - initial_size
                };
                &&& r.0.bottom_address == new_bottom
                &&& r.1 == StackChange::MapPages(
                    pages_below(new_bottom as u64, start_address.0),
                    PageFlags { bits: spec_stack_flags(access_type) },
                )
            },
            initial_size == 0 ==> r.0.bottom_address == start_address.0 && r.1 == StackChange::UnmapPages(
                pages_below(start_address.0, start_address.0),
            ),
    {
        let mut stack = Stack {
            top_address: start_address.0,
            bottom_address: start_address.0,
            max_size,
            base_stack_pointer: start_address.0,
            access_type,
        };
        let change = stack.resize(initial_size);
        (stack, change)
    }

    /// Grows the stack by the given amount, no further than its maximum
    /// size, and returns the pages to map.
    pub fn grow(&mut self, amount: u64) -> (r: PageRange)
        requires
            old(self).wf(),
            amount <= old(self).bottom_address,
        ensures
            final(self).wf(),
            *final(self) == (Stack { bottom_address: final(self).bottom_address, ..*old(self) }),
            final(self).bottom_address == grown_bottom(*old(self), amount),
            r == pages_below(final(self).bottom_address, old(self).bottom_address),
    {
        let lowest = self.top_address - self.max_size;
        let wanted = self.bottom_address - amount;
        let new_bottom = if lowest > wanted {
            lowest
        } else {
            wanted
        };
        let first_page_to_map = new_bottom / PAGE_SIZE;
        let last_page_to_map = self.bottom_address / PAGE_SIZE;
        self.bottom_address = new_bottom;
        PageRange { first: first_page_to_map, last: last_page_to_map }
    }

    /// Shrinks the stack by the given amount, no further than to empty, and
    /// returns the pages to unmap.
    pub fn shrink(&mut self, amount: u64) -> (r: PageRange)
        requires
            old(self).wf(),
            old(self).bottom_address + amount <= u64::MAX,
        ensures
            final(self).wf(),
            *final(self) == (Stack { bottom_address: final(self).bottom_address, ..*old(self) }),
            final(self).bottom_address == shrunk_bottom(*old(self), amount),
            r == pages_below(old(self).bottom_address, final(self).bottom_address),
    {
        let wanted = self.bottom_address + amount;
        let new_bottom = if self.top_address < wanted {
            self.top_address
        } else {
            wanted
        };
        let first_page_to_unmap = self.bottom_address / PAGE_SIZE;
        let last_page_to_unmap = new_bottom / PAGE_SIZE;
        self.bottom_address = new_bottom;
        PageRange { first: first_page_to_unmap, last: last_page_to_unmap }
    }

    /// Resizes the stack to the given size, within its maximum size, and
    /// returns the pages to map or unmap.
    pub fn resize(&mut self, new_size: u64) -> (r: StackChange)
        requires
            old(self).wf(),
            new_size <= i64::MAX,
            new_size <= old(self).top_address,
        ensures
            final(self).wf(),
            *final(self) == (Stack { bottom_address: final(self).bottom_address, ..*old(self) }),
            new_size > old(self).top_address - old(self).bottom_address ==> {
                let new_bottom = if old(self).top_address - old(self).max_size > old(self).top_address - new_size {
                    old(self).top_address - old(self).max_size
                } else {
                    old(self).top_address - new_size
                };
                &&& final(self).bottom_address == new_bottom
                &&& r == StackChange::MapPages(
                    pages_below(new_bottom as u64, old(self).bottom_address),
                    PageFlags { bits: spec_stack_flags(old(self).access_type) },
                )
            },
            new_size <= old(self).top_address - old(self).bottom_address ==> {
                &&& final(self).bottom_address == old(self).top_address - new_size
                &&& r == StackChange::UnmapPages(pages_below(old(self).bottom_address, final(self).bottom_address))
            },
    {
        let current_size = (self.top_address - self.bottom_address) as i64;
        let difference = new_size as i64 - current_size;
        if difference > 0 {
            let flags = self.page_flags();
            let pages = self.grow(difference as u64);
            StackChange::MapPages(pages, flags)
        } else {
            let pages = self.shrink((-difference) as u64);
            StackChange::UnmapPages(pages)
        }
    }

    /// Makes room for a value of the given size on the stack that the
    /// stack pointer points into, and returns the address to write it to.
    pub fn push_in(stack_pointer: &mut VirtualAddress, size: u64) -> (r: VirtualAddress)
        requires
            size <= old(stack_pointer).0,
        ensures
            final(stack_pointer).0 == old(stack_pointer).0 - size,
            r == *final(stack_pointer),
    {
        stack_pointer.0 = stack_pointer.0 - size;
        *stack_pointer
    }
}

} // verus!
