//! A first-fit heap allocator over a list of blocks.
//!
//! The heap is a run of blocks, each starting with a node header. A node is
//! either used (its block holds one allocation) or free. Allocating splits the
//! first free block that fits; freeing merges the block with free neighbours
//! and gives pages at the end of the heap back.

use vstd::prelude::*;
use vstd::arithmetic::power2::{pow2, lemma2_to64};
use vstd::bits::{low_bits_mask, lemma_u64_low_bits_mask_is_mod, lemma_u64_pow2_no_overflow};
use crate::memory::{VirtualAddress, PAGE_SIZE};

verus! {

/// The size of a node header in the heap.
pub const NODE_SIZE: u64 = 24;

/// The alignment of a node header in the heap.
pub const NODE_ALIGN: u64 = 8;

/// How far the mapped end of the heap may lie beyond its maximum address:
/// the header of the last node and the page that holds it.
pub const HEAP_SLACK: u64 = 0x4000;

/// True if `a` is a power of two that fits in a `u64`.
pub open spec fn is_power_of_two(a: u64) -> bool {
    exists|k: nat| k < 64 && pow2(k) == a
}

/// The smallest multiple of `a` that is at least `x`.
pub open spec fn round_up(x: int, a: int) -> int {
    if x % a == 0 {
        x
    } else {
        x - x % a + a
    }
}

proof fn lemma_power_of_two_mask(x: u64, a: u64)
    requires
        is_power_of_two(a),
    ensures
        a > 0,
        x & !((a - 1) as u64) == x - x % a,
{
    let k = choose|k: nat| k < 64 && pow2(k) == a;
    lemma_u64_pow2_no_overflow(k);
    lemma_u64_low_bits_mask_is_mod(x, k);
    assert(low_bits_mask(k) == pow2(k) - 1);
    let m = (a - 1) as u64;
    assert((x & !m) + (x & m) == x) by (bit_vector);
}

proof fn lemma_round_up(x: int, a: int)
    requires
        x >= 0,
        a > 0,
    ensures
        x <= round_up(x, a) < x + a,
        round_up(x, a) % a == 0,
{
    if x % a != 0 {
        assert((x - x % a + a) % a == 0) by (nonlinear_arith)
            requires
                a > 0,
        ;
    }
}

/// Aligns the address to the given alignment, rounding up.
///
/// The alignment must be a power of two.
pub fn align(address: VirtualAddress, alignment: u64) -> (r: VirtualAddress)
    requires
        is_power_of_two(alignment),
        address.0 + alignment <= u64::MAX,
    ensures
        r.0 == round_up(address.0 as int, alignment as int),
        address.0 <= r.0 < address.0 + alignment,
        r.0 % alignment == 0,
{
    proof {
        lemma_power_of_two_mask(address.0, alignment);
        lemma_round_up(address.0 as int, alignment as int);
    }
    if address.0 % alignment == 0 {
        address
    } else {
        let alignment_bitmask = !(alignment - 1);
        VirtualAddress((address.0 & alignment_bitmask) + alignment)
    }
}

/// Represents a node in the list of blocks.
#[derive(Clone, Copy, Debug, PartialEq, Eq, Structural)]
pub struct Node {
    /// The address of the node header.
    pub address: u64,
    /// True if the memory in this block is allocated.
    pub used: bool,
    /// If it exists, the address of the next node in the list.
    pub next_node: Option<u64>,
}

/// The addresses used by the arithmetic on a node stay far from overflow.
pub open spec fn node_in_range(address: u64, size: u64, alignment: u64) -> bool {
    address + NODE_SIZE + alignment + size + 2 * NODE_SIZE <= u64::MAX
}

impl Node {
    /// The address handed out for an allocation with the given alignment in
    /// this node's block.
    pub open spec fn block_start(self, alignment: u64) -> int {
        round_up(self.address + NODE_SIZE, alignment as int)
    }

    /// The address at which a node following an allocation of the given size
    /// would start.
    pub open spec fn next_start(self, size: u64, alignment: u64) -> int {
        round_up(self.block_start(alignment) + size, NODE_ALIGN as int)
    }

    /// The space wasted by using this node for the given allocation, or
    /// `None` if the node cannot hold it.
    pub open spec fn spec_space_waste(self, max_address: u64, size: u64, alignment: u64) -> Option<int> {
        if self.used {
            None
        } else {
            let aligned = self.block_start(alignment);
            let next_start = self.next_start(size, alignment);
            match self.next_node {
                Some(end) => if end == next_start {
                    Some(0)
                } else if end > next_start + NODE_SIZE {
                    Some(end - size - aligned)
                } else {
                    None
                },
                None => if max_address > aligned + size {
                    Some(0)
                } else {
                    None
                },
            }
        }
    }

    /// Determines the space wasted by using this node for the given
    /// allocation.
    ///
    /// Returns None if the node cannot hold the allocation.
    pub fn space_waste(&self, max_address: VirtualAddress, size: u64, alignment: u64) -> (r: Option<u64>)
        requires
            is_power_of_two(alignment),
            node_in_range(self.address, size, alignment),
        ensures
            r matches Some(w) ==> self.spec_space_waste(max_address.0, size, alignment) == Some(w as int),
            r is None ==> self.spec_space_waste(max_address.0, size, alignment) is None,
    {
        if !self.used {
            let start_address = VirtualAddress(self.address + NODE_SIZE);
            let aligned_address = align(start_address, alignment);
            proof {
                lemma_node_align_is_power_of_two();
            }
            let next_node_start = align(VirtualAddress(aligned_address.0 + size), NODE_ALIGN);
            match self.next_node {
                Some(end_address) => {
                    if end_address == next_node_start.0 {
                        Some(0)
                    } else if end_address > next_node_start.0 + NODE_SIZE {
                        Some(end_address - size - aligned_address.0)
                    } else {
                        None
                    }
                },
                None => {
                    if max_address.0 > aligned_address.0 + size {
                        Some(0)
                    } else {
                        None
                    }
                },
            }
        } else {
            None
        }
    }

    /// Checks if this node holds the allocation that starts at `ptr`.
    pub fn contains_allocation(&self, ptr: u64, size: u64, alignment: u64) -> (r: bool)
        requires
            is_power_of_two(alignment),
            node_in_range(self.address, size, alignment),
        ensures
            r == (self.used && ptr == self.block_start(alignment)),
    {
        if self.used {
            let start_address = VirtualAddress(self.address + NODE_SIZE);
            let aligned_address = align(start_address, alignment);
            ptr == aligned_address.0
        } else {
            false
        }
    }
}

proof fn lemma_node_align_is_power_of_two()
    ensures
        is_power_of_two(NODE_ALIGN),
{
    lemma2_to64();
    assert(pow2(3) == 8);
}


/// Every node header ends before the header of any later node starts.
#[verifier::opaque]
pub open spec fn ordered(nodes: Seq<Node>) -> bool {
    forall|i: int, j: int| 0 <= i < j < nodes.len() ==> #[trigger] nodes[i].address + NODE_SIZE
        <= #[trigger] nodes[j].address
}

/// Every node links to the node after it, and the last node to none.
#[verifier::opaque]
pub open spec fn linked(nodes: Seq<Node>) -> bool {
    &&& nodes.len() >= 1
    &&& forall|i: int| 0 <= i < nodes.len() - 1 ==> #[trigger] nodes[i].next_node == Some(nodes[i + 1].address)
    &&& nodes[nodes.len() - 1].next_node is None
}

proof fn lemma_ordered_at(nodes: Seq<Node>, i: int, j: int)
    requires
        ordered(nodes),
        0 <= i < j < nodes.len(),
    ensures
        nodes[i].address + NODE_SIZE <= nodes[j].address,
{
    reveal(ordered);
}

proof fn lemma_linked_at(nodes: Seq<Node>, i: int)
    requires
        linked(nodes),
        0 <= i < nodes.len(),
    ensures
        i + 1 < nodes.len() ==> nodes[i].next_node == Some(nodes[i + 1].address),
        i + 1 == nodes.len() ==> nodes[i].next_node is None,
{
    reveal(linked);
}

/// Splitting a node for an allocation keeps the nodes ordered and linked,
/// with the same first and last node unless a new last node follows.
proof fn lemma_split_wf(nodes: Seq<Node>, i: int, size: u64, alignment: u64)
    requires
        ordered(nodes),
        linked(nodes),
        0 <= i < nodes.len(),
        nodes[i].address + NODE_SIZE <= nodes[i].next_start(size, alignment) <= u64::MAX,
        i + 1 < nodes.len() ==> nodes[i].next_start(size, alignment) == nodes[i + 1].address
            || nodes[i].next_start(size, alignment) + NODE_SIZE <= nodes[i + 1].address,
    ensures
        ordered(split_nodes(nodes, i, size, alignment)),
        linked(split_nodes(nodes, i, size, alignment)),
        split_nodes(nodes, i, size, alignment)[0].address == nodes[0].address,
        i + 1 < nodes.len() ==> split_nodes(nodes, i, size, alignment).last() == nodes.last(),
        i + 1 == nodes.len() ==> split_nodes(nodes, i, size, alignment).last() == (Node {
            address: nodes[i].next_start(size, alignment) as u64,
            used: false,
            next_node: None,
        }),
{
    reveal(ordered);
    reveal(linked);
    let r = split_nodes(nodes, i, size, alignment);
    let n = nodes.len();
    let nns = nodes[i].next_start(size, alignment) as u64;
    if r.len() > n {
        assert forall|a: int, b: int| 0 <= a < b < r.len() implies #[trigger] r[a].address + NODE_SIZE
            <= #[trigger] r[b].address by {
            let oa = if a <= i { a } else { a - 1 };
            let ob = if b <= i { b } else { b - 1 };
            if b == i + 1 {
                if a < i {
                    assert(nodes[a].address + NODE_SIZE <= nodes[i].address);
                }
            } else if a == i + 1 {
                assert(nodes[i + 1].address <= nodes[ob].address) by {
                    if ob > i + 1 {
                        assert(nodes[i + 1].address + NODE_SIZE <= nodes[ob].address);
                    }
                }
            } else {
                assert(nodes[oa].address + NODE_SIZE <= nodes[ob].address);
            }
        }
        assert forall|a: int| 0 <= a < r.len() - 1 implies #[trigger] r[a].next_node == Some(r[a + 1].address) by {
            if a > i + 1 {
                assert(nodes[a - 1].next_node == Some(nodes[a].address));
            } else if a < i {
                assert(nodes[a].next_node == Some(nodes[a + 1].address));
            }
        }
    } else {
        assert forall|a: int, b: int| 0 <= a < b < r.len() implies #[trigger] r[a].address + NODE_SIZE
            <= #[trigger] r[b].address by {
            assert(nodes[a].address + NODE_SIZE <= nodes[b].address);
        }
        assert forall|a: int| 0 <= a < r.len() - 1 implies #[trigger] r[a].next_node == Some(r[a + 1].address) by {
            assert(nodes[a].next_node == Some(nodes[a + 1].address));
        }
    }
}

proof fn lemma_ordered_remove(nodes: Seq<Node>, k: int)
    requires
        ordered(nodes),
        0 <= k < nodes.len(),
    ensures
        ordered(nodes.remove(k)),
{
    reveal(ordered);
    let r = nodes.remove(k);
    assert forall|a: int, b: int| 0 <= a < b < r.len() implies #[trigger] r[a].address + NODE_SIZE
        <= #[trigger] r[b].address by {
        let oa = if a < k { a } else { a + 1 };
        let ob = if b < k { b } else { b + 1 };
        assert(nodes[oa].address + NODE_SIZE <= nodes[ob].address);
    }
}

proof fn lemma_ordered_update(nodes: Seq<Node>, k: int, x: Node)
    requires
        ordered(nodes),
        0 <= k < nodes.len(),
        x.address == nodes[k].address,
    ensures
        ordered(nodes.update(k, x)),
{
    reveal(ordered);
    let r = nodes.update(k, x);
    assert forall|a: int, b: int| 0 <= a < b < r.len() implies #[trigger] r[a].address + NODE_SIZE
        <= #[trigger] r[b].address by {
        assert(nodes[a].address + NODE_SIZE <= nodes[b].address);
    }
}

/// Freeing a node between others keeps the nodes ordered and linked, with
/// the same first and last node.
proof fn lemma_merge_inner_wf(nodes: Seq<Node>, i: int)
    requires
        ordered(nodes),
        linked(nodes),
        0 <= i,
        i + 2 < nodes.len(),
    ensures
        ordered(merge_inner_nodes(nodes, i)),
        linked(merge_inner_nodes(nodes, i)),
        merge_inner_nodes(nodes, i)[0].address == nodes[0].address,
        merge_inner_nodes(nodes, i).last() == nodes.last(),
{
    reveal(linked);
    let n = nodes.len();
    let next = nodes[i + 1];
    let u = if !next.used {
        Node { address: nodes[i].address, used: false, next_node: next.next_node }
    } else {
        Node { address: nodes[i].address, used: false, next_node: nodes[i].next_node }
    };
    let f1 = nodes.update(i, u);
    let freed = if !next.used { f1.remove(i + 1) } else { f1 };
    lemma_ordered_update(nodes, i, u);
    if !next.used {
        lemma_ordered_remove(f1, i + 1);
    }
    assert(linked(freed)) by {
        assert forall|a: int| 0 <= a < freed.len() - 1 implies #[trigger] freed[a].next_node == Some(freed[a + 1].address) by {
            if !next.used && a > i {
                assert(nodes[a + 1].next_node == Some(nodes[a + 2].address));
            } else if !next.used && a == i {
                assert(nodes[i + 1].next_node == Some(nodes[i + 2].address));
            } else {
                assert(nodes[a].next_node == Some(nodes[a + 1].address));
            }
        }
    }
    assert(freed.last() == nodes.last());
    assert(freed[i].address == nodes[i].address);
    if i > 0 && !nodes[i - 1].used {
        let p = Node { address: nodes[i - 1].address, used: false, next_node: freed[i].next_node };
        let g = freed.update(i - 1, p);
        lemma_ordered_update(freed, i - 1, p);
        lemma_ordered_remove(g, i);
        let r = g.remove(i);
        assert(r == merge_inner_nodes(nodes, i));
        assert forall|a: int| 0 <= a < r.len() - 1 implies #[trigger] r[a].next_node == Some(r[a + 1].address) by {
            if a >= i {
                assert(freed[a + 1].next_node == Some(freed[a + 2].address));
            } else if a < i - 1 {
                assert(freed[a].next_node == Some(freed[a + 1].address));
            }
        }
        assert(r.last() == freed.last());
    } else {
        assert(freed == merge_inner_nodes(nodes, i));
    }
}

/// The addresses of the used nodes.
pub open spec fn used_addresses(nodes: Seq<Node>) -> Set<u64> {
    Set::new(|a: u64| exists|j: int| 0 <= j < nodes.len() && #[trigger] nodes[j].used && nodes[j].address == a)
}

/// The index of the first node, from `i` on, whose block can hold the
/// allocation.
pub open spec fn first_fit_from(nodes: Seq<Node>, max_address: u64, size: u64, alignment: u64, i: int) -> int
    decreases nodes.len() - i,
{
    if i >= nodes.len() {
        nodes.len() as int
    } else if nodes[i].spec_space_waste(max_address, size, alignment) is Some {
        i
    } else {
        first_fit_from(nodes, max_address, size, alignment, i + 1)
    }
}

/// The index of the first used node whose block holds the allocation at
/// `ptr`, or the number of nodes if there is none.
pub open spec fn holder_from(nodes: Seq<Node>, ptr: u64, alignment: u64, i: int) -> int
    decreases nodes.len() - i,
{
    if i >= nodes.len() {
        nodes.len() as int
    } else if nodes[i].used && ptr == nodes[i].block_start(alignment) {
        i
    } else {
        holder_from(nodes, ptr, alignment, i + 1)
    }
}

/// The nodes after splitting node `i` for the allocation: the node becomes
/// used and, unless the next node starts right after the allocation, a new
/// free node is placed there.
pub open spec fn split_nodes(nodes: Seq<Node>, i: int, size: u64, alignment: u64) -> Seq<Node> {
    let node = nodes[i];
    let next_start = node.next_start(size, alignment) as u64;
    if node.next_node is None || node.next_node != Some(next_start) {
        nodes.update(i, Node { address: node.address, used: true, next_node: Some(next_start) }).insert(
            i + 1,
            Node { address: next_start, used: false, next_node: node.next_node },
        )
    } else {
        nodes.update(i, Node { address: node.address, used: true, next_node: node.next_node })
    }
}

/// The nodes after freeing used node `i` that is followed by a node other
/// than the last one: the node becomes free and absorbs a free next node,
/// then a free previous node absorbs it.
pub open spec fn merge_inner_nodes(nodes: Seq<Node>, i: int) -> Seq<Node> {
    let next = nodes[i + 1];
    let freed = if !next.used {
        nodes.update(i, Node { address: nodes[i].address, used: false, next_node: next.next_node }).remove(i + 1)
    } else {
        nodes.update(i, Node { address: nodes[i].address, used: false, next_node: nodes[i].next_node })
    };
    if i > 0 && !nodes[i - 1].used {
        freed.update(i - 1, Node { address: nodes[i - 1].address, used: false, next_node: freed[i].next_node }).remove(i)
    } else {
        freed
    }
}

/// The index of the node that ends the list after freeing node `i`, the
/// last node but one: a free previous node, or else node `i` itself.
pub open spec fn merge_last_index(nodes: Seq<Node>, i: int) -> int {
    if i > 0 && !nodes[i - 1].used {
        i - 1
    } else {
        i
    }
}

/// The nodes after freeing node `i`, the last node but one: the list ends
/// with a free node there.
pub open spec fn merge_last_nodes(nodes: Seq<Node>, i: int) -> Seq<Node> {
    let last = merge_last_index(nodes, i);
    nodes.update(last, Node { address: nodes[last].address, used: false, next_node: None }).take(last + 1)
}

proof fn lemma_first_fit(nodes: Seq<Node>, max_address: u64, size: u64, alignment: u64, i: int)
    requires
        0 <= i <= nodes.len(),
    ensures
        i <= first_fit_from(nodes, max_address, size, alignment, i) <= nodes.len(),
        first_fit_from(nodes, max_address, size, alignment, i) < nodes.len() ==> nodes[first_fit_from(
            nodes,
            max_address,
            size,
            alignment,
            i,
        )].spec_space_waste(max_address, size, alignment) is Some,
        forall|j: int| i <= j < first_fit_from(nodes, max_address, size, alignment, i) ==> (
        #[trigger] nodes[j].spec_space_waste(max_address, size, alignment)) is None,
    decreases nodes.len() - i,
{
    if i < nodes.len() && nodes[i].spec_space_waste(max_address, size, alignment) is None {
        lemma_first_fit(nodes, max_address, size, alignment, i + 1);
    }
}

proof fn lemma_holder(nodes: Seq<Node>, ptr: u64, alignment: u64, i: int)
    requires
        0 <= i <= nodes.len(),
    ensures
        i <= holder_from(nodes, ptr, alignment, i) <= nodes.len(),
        holder_from(nodes, ptr, alignment, i) < nodes.len() ==> nodes[holder_from(nodes, ptr, alignment, i)].used
            && nodes[holder_from(nodes, ptr, alignment, i)].block_start(alignment) == ptr,
        forall|j: int| i <= j < holder_from(nodes, ptr, alignment, i) ==> !(#[trigger] nodes[j].used
            && ptr == nodes[j].block_start(alignment)),
    decreases nodes.len() - i,
{
    if i < nodes.len() && !(nodes[i].used && ptr == nodes[i].block_start(alignment)) {
        lemma_holder(nodes, ptr, alignment, i + 1);
    }
}

proof fn lemma_split_used(nodes: Seq<Node>, i: int, size: u64, alignment: u64)
    requires
        0 <= i < nodes.len(),
    ensures
        used_addresses(split_nodes(nodes, i, size, alignment)) == used_addresses(nodes).insert(nodes[i].address),
{
    let r = split_nodes(nodes, i, size, alignment);
    let n = nodes.len();
    assert forall|a: u64| used_addresses(r).contains(a) <==> used_addresses(nodes).insert(nodes[i].address).contains(a) by {
        if used_addresses(r).contains(a) {
            let j = choose|j: int| 0 <= j < r.len() && #[trigger] r[j].used && r[j].address == a;
            if j != i {
                let oj = if j < i || r.len() == n { j } else { j - 1 };
                assert(nodes[oj].used && nodes[oj].address == a);
            }
        }
        if used_addresses(nodes).contains(a) {
            let j = choose|j: int| 0 <= j < nodes.len() && #[trigger] nodes[j].used && nodes[j].address == a;
            if j != i {
                let rj = if j < i || r.len() == n { j } else { j + 1 };
                assert(r[rj].used && r[rj].address == a);
            }
        }
        if a == nodes[i].address {
            assert(r[i].used && r[i].address == a);
        }
    }
    assert(used_addresses(r) =~= used_addresses(nodes).insert(nodes[i].address));
}

proof fn lemma_merge_inner_used(nodes: Seq<Node>, i: int)
    requires
        ordered(nodes),
        0 <= i,
        i + 2 < nodes.len(),
    ensures
        used_addresses(merge_inner_nodes(nodes, i)) == used_addresses(nodes).remove(nodes[i].address),
{
    reveal(ordered);
    let r = merge_inner_nodes(nodes, i);
    let next = nodes[i + 1];
    let dropped_next = !next.used;
    let dropped_self = i > 0 && !nodes[i - 1].used;
    // Maps an index of the result to the index of the node it came from.
    let orig = |j: int| {
        let f = if dropped_self && j >= i { j + 1 } else { j };
        if dropped_next && f > i { f + 1 } else { f }
    };
    assert forall|j: int| 0 <= j < r.len() implies #[trigger] r[j].address == nodes[orig(j)].address
        && (r[j].used == nodes[orig(j)].used || orig(j) == i) && 0 <= orig(j) < nodes.len() && (orig(j) == i
        ==> !r[j].used) && (orig(j) == i - 1 && dropped_self ==> !r[j].used) by {
    }
    assert forall|a: u64| used_addresses(r).contains(a) <==> used_addresses(nodes).remove(nodes[i].address).contains(a) by {
        if used_addresses(r).contains(a) {
            let j = choose|j: int| 0 <= j < r.len() && #[trigger] r[j].used && r[j].address == a;
            let o = orig(j);
            assert(nodes[o].used && nodes[o].address == a);
            assert(o != i);
            if a == nodes[i].address {
                if o < i {
                    assert(nodes[o].address + NODE_SIZE <= nodes[i].address);
                } else {
                    assert(nodes[i].address + NODE_SIZE <= nodes[o].address);
                }
            }
        }
        if used_addresses(nodes).remove(nodes[i].address).contains(a) {
            let j = choose|j: int| 0 <= j < nodes.len() && #[trigger] nodes[j].used && nodes[j].address == a;
            assert(j != i);
            assert(!(dropped_next && j == i + 1));
            assert(!(dropped_self && j == i - 1));
            let f = if dropped_next && j > i { j - 1 } else { j };
            let rj = if dropped_self && f > i { f - 1 } else { f };
            assert(orig(rj) == j);
            assert(r[rj].used && r[rj].address == a);
        }
    }
    assert(used_addresses(r) =~= used_addresses(nodes).remove(nodes[i].address));
}

proof fn lemma_merge_last_used(nodes: Seq<Node>, i: int)
    requires
        ordered(nodes),
        0 <= i,
        i + 2 == nodes.len(),
        !nodes[i + 1].used,
    ensures
        used_addresses(merge_last_nodes(nodes, i)) == used_addresses(nodes).remove(nodes[i].address),
{
    reveal(ordered);
    let r = merge_last_nodes(nodes, i);
    let last = merge_last_index(nodes, i);
    assert forall|a: u64| used_addresses(r).contains(a) <==> used_addresses(nodes).remove(nodes[i].address).contains(a) by {
        if used_addresses(r).contains(a) {
            let j = choose|j: int| 0 <= j < r.len() && #[trigger] r[j].used && r[j].address == a;
            assert(nodes[j].used && nodes[j].address == a);
            assert(j < i);
            assert(nodes[j].address + NODE_SIZE <= nodes[i].address);
        }
        if used_addresses(nodes).remove(nodes[i].address).contains(a) {
            let j = choose|j: int| 0 <= j < nodes.len() && #[trigger] nodes[j].used && nodes[j].address == a;
            assert(j < i);
            assert(r[j].used && r[j].address == a);
        }
    }
    assert(used_addresses(r) =~= used_addresses(nodes).remove(nodes[i].address));
}

proof fn lemma_holder_is(nodes: Seq<Node>, ptr: u64, alignment: u64, i: int, k: int)
    requires
        0 <= k <= i < nodes.len(),
        nodes[i].used && nodes[i].block_start(alignment) == ptr,
        forall|j: int| 0 <= j < i ==> !(#[trigger] nodes[j].used && nodes[j].block_start(alignment) == ptr),
    ensures
        holder_from(nodes, ptr, alignment, k) == i,
    decreases i - k,
{
    if k < i {
        lemma_holder_is(nodes, ptr, alignment, i, k + 1);
    }
}

/// Freeing the allocation just made by `allocate_first_fit` with the same
/// size and alignment frees the node that was split for it and leaves the
/// used nodes as they were before, unless a used node further up the list
/// claims the same start address under this alignment.
pub proof fn lemma_free_undoes_allocate(nodes: Seq<Node>, max_address: u64, size: u64, alignment: u64)
    requires
        ordered(nodes),
        linked(nodes),
        !nodes.last().used,
        max_address + HEAP_SLACK + size + alignment + 64 <= u64::MAX,
        forall|j: int| 0 <= j < nodes.len() ==> #[trigger] nodes[j].address <= max_address + HEAP_SLACK,
        is_power_of_two(alignment),
        first_fit_from(nodes, max_address, size, alignment, 0) < nodes.len(),
        forall|j: int| 0 <= j < first_fit_from(nodes, max_address, size, alignment, 0) ==> !(
        #[trigger] nodes[j].used && nodes[j].block_start(alignment) == nodes[first_fit_from(
            nodes,
            max_address,
            size,
            alignment,
            0,
        )].block_start(alignment)),
    ensures
        ({
            let i = first_fit_from(nodes, max_address, size, alignment, 0);
            let r = nodes[i].block_start(alignment) as u64;
            let after = split_nodes(nodes, i, size, alignment);
            let freed = if i + 2 < after.len() {
                merge_inner_nodes(after, i)
            } else {
                merge_last_nodes(after, i)
            };
            &&& holder_from(after, r, alignment, 0) == i
            &&& i + 2 <= after.len()
            &&& used_addresses(freed) == used_addresses(nodes)
        }),
{
    let i = first_fit_from(nodes, max_address, size, alignment, 0);
    lemma_first_fit(nodes, max_address, size, alignment, 0);
    let node = nodes[i];
    let r = node.block_start(alignment) as u64;
    let after = split_nodes(nodes, i, size, alignment);
    lemma_power_of_two_mask(0, alignment);
    lemma_round_up(node.address + NODE_SIZE, alignment as int);
    lemma_round_up(node.block_start(alignment) + size, NODE_ALIGN as int);
    lemma_linked_at(nodes, i);
    if i + 1 < nodes.len() {
        lemma_linked_at(nodes, i + 1);
    }
    lemma_split_wf(nodes, i, size, alignment);
    assert(after[i].used && after[i].address == node.address);
    assert forall|j: int| 0 <= j < i implies !(#[trigger] after[j].used && after[j].block_start(alignment) == r) by {
        assert(after[j] == nodes[j]);
    }
    lemma_holder_is(after, r, alignment, i, 0);
    lemma_split_used(nodes, i, size, alignment);
    reveal(ordered);
    assert(!used_addresses(nodes).contains(node.address)) by {
        if used_addresses(nodes).contains(node.address) {
            let j = choose|j: int| 0 <= j < nodes.len() && #[trigger] nodes[j].used && nodes[j].address == node.address;
            assert(j != i);
        }
    }
    if i + 2 < after.len() {
        lemma_merge_inner_used(after, i);
    } else {
        assert(after.last() == after[i + 1]);
        if i + 1 < nodes.len() {
            assert(nodes.last() == nodes[i + 1]);
        }
        lemma_merge_last_used(after, i);
    }
    assert(used_addresses(nodes).insert(node.address).remove(node.address) =~= used_addresses(nodes));
}

/// The nodes of a fresh allocator whose first node lies at `start`: one
/// free node, with nothing after it.
pub open spec fn fresh_nodes(start: u64) -> Seq<Node> {
    seq![Node { address: start, used: false, next_node: None }]
}

/// On a fresh allocator, freeing what the first allocation handed out gives
/// the fresh allocator back: the allocation is held by the first node, which
/// is the last node but one, and after the free the list is the single free
/// node again and only the first page stays mapped, so that the same
/// allocation hands out the same address again.
pub proof fn lemma_free_restores_fresh_heap(
    start: u64,
    max_address: u64,
    size: u64,
    alignment: u64,
    freed: LinkedListAllocator,
)
    requires
        is_power_of_two(alignment),
        max_address + HEAP_SLACK + size + alignment + 64 <= u64::MAX,
        start + PAGE_SIZE <= max_address + HEAP_SLACK,
        first_fit_from(fresh_nodes(start), max_address, size, alignment, 0) == 0,
        freed.wf(),
        freed.max_address == max_address,
        freed.nodes@ == merge_last_nodes(split_nodes(fresh_nodes(start), 0, size, alignment), 0),
        freed.end_address - PAGE_SIZE <= start + NODE_SIZE,
    ensures
        ({
            let allocated = split_nodes(fresh_nodes(start), 0, size, alignment);
            let r = fresh_nodes(start)[0].block_start(alignment) as u64;
            &&& holder_from(allocated, r, alignment, 0) == 0
            &&& allocated.len() == 2
        }),
        freed.nodes@ == fresh_nodes(start),
        freed.end_address == start + PAGE_SIZE,
        first_fit_from(freed.nodes@, freed.max_address, size, alignment, 0) == 0,
{
    let nodes = fresh_nodes(start);
    let node = nodes[0];
    let allocated = split_nodes(nodes, 0, size, alignment);
    lemma_power_of_two_mask(0, alignment);
    lemma_round_up(start + NODE_SIZE, alignment as int);
    let r = node.block_start(alignment) as u64;
    assert(r == node.block_start(alignment));
    assert(node.next_node is None);
    assert(allocated.len() == 2);
    assert(allocated[0].used && allocated[0].address == start);
    assert(r == allocated[0].block_start(alignment));
    assert(holder_from(allocated, r, alignment, 0) == 0);
    assert(merge_last_index(allocated, 0) == 0);
    assert(freed.nodes@ =~= nodes);
    let e = freed.end_address as int;
    let a = start as int;
    assert(e == a + PAGE_SIZE) by (nonlinear_arith)
        requires
            (e - a) % 4096 == 0,
            e >= a + 4096,
            e - 4096 <= a + 24,
    ;
}

/// Allocating on a fresh heap and freeing what came back restores the
/// fresh heap: `fresh` is what `new` made, `allocated` what a successful
/// `allocate_first_fit` left, and `freed` what `free` of the returned
/// address left, each as the functions' contracts say. Afterwards the heap
/// is the single free node again with only its first page mapped, so the
/// same allocation hands out the same address.
pub proof fn lemma_allocate_free_round_trip(
    start: u64,
    fresh: LinkedListAllocator,
    allocated: LinkedListAllocator,
    freed: LinkedListAllocator,
    size: u64,
    alignment: u64,
    r: u64,
)
    requires
        is_power_of_two(alignment),
        fresh.max_address + HEAP_SLACK + size + alignment + 64 <= u64::MAX,
        fresh.wf(),
        fresh.nodes@ == fresh_nodes(start),
        fresh.end_address == start + PAGE_SIZE,
        allocated.wf(),
        r != 0,
        ({
            let i = first_fit_from(fresh.nodes@, fresh.max_address, size, alignment, 0);
            &&& i == fresh.nodes@.len() ==> r == 0
            &&& i < fresh.nodes@.len() ==> {
                &&& r == fresh.nodes@[i].block_start(alignment)
                &&& allocated.nodes@ == split_nodes(fresh.nodes@, i, size, alignment)
                &&& allocated.max_address == fresh.max_address
            }
        }),
        freed.wf(),
        freed.max_address == allocated.max_address,
        ({
            let h = holder_from(allocated.nodes@, r, alignment, 0);
            h + 2 == allocated.nodes@.len() ==> {
                &&& freed.nodes@ == merge_last_nodes(allocated.nodes@, h)
                &&& freed.end_address - PAGE_SIZE <= allocated.nodes@[merge_last_index(allocated.nodes@, h)].address
                    + NODE_SIZE
            }
        }),
    ensures
        freed.nodes@ == fresh.nodes@,
        freed.end_address == fresh.end_address,
        freed.max_address == fresh.max_address,
        first_fit_from(freed.nodes@, freed.max_address, size, alignment, 0) == 0,
        r == freed.nodes@[0].block_start(alignment),
{
    let nodes = fresh_nodes(start);
    let i = first_fit_from(nodes, fresh.max_address, size, alignment, 0);
    lemma_first_fit(nodes, fresh.max_address, size, alignment, 0);
    assert(i == 0);
    let node = nodes[0];
    lemma_power_of_two_mask(0, alignment);
    lemma_round_up(start + NODE_SIZE, alignment as int);
    let after = split_nodes(nodes, 0, size, alignment);
    assert(node.next_node is None);
    assert(after.len() == 2);
    assert(after[0].used && after[0].address == start);
    assert(r == after[0].block_start(alignment));
    assert(holder_from(after, r, alignment, 0) == 0);
    assert(merge_last_index(after, 0) == 0);
    lemma_free_restores_fresh_heap(start, fresh.max_address, size, alignment, freed);
}

/// The interface of the linked list allocator.
pub struct LinkedListAllocator {
    /// The maximum address that this allocator can still manage.
    pub max_address: u64,
    /// The nodes of the list of blocks, in list order.
    pub nodes: Vec<Node>,
    /// The first address that is not mapped for the heap.
    pub end_address: u64,
}

impl LinkedListAllocator {
    /// The list is linked in address order, its last node is free and
    /// mapped, and the mapped end lies a whole number of pages past the
    /// first node.
    pub open spec fn wf(&self) -> bool {
        let nodes = self.nodes@;
        let n = nodes.len();
        &&& linked(nodes)
        &&& ordered(nodes)
        &&& !nodes[n - 1].used
        &&& nodes[n - 1].address + NODE_SIZE <= self.end_address
        &&& self.end_address >= nodes[0].address + PAGE_SIZE
        &&& (self.end_address - nodes[0].address) % (PAGE_SIZE as int) == 0
        &&& self.end_address <= self.max_address + HEAP_SLACK
        &&& self.max_address + HEAP_SLACK <= u64::MAX
    }

    /// The addresses of the used nodes.
    pub open spec fn used(&self) -> Set<u64> {
        used_addresses(self.nodes@)
    }

    /// Creates a new linked list allocator whose first node lies at
    /// `start_address`; the page holding it is the only one mapped.
    pub fn new(start_address: VirtualAddress, max_address: VirtualAddress) -> (r: LinkedListAllocator)
        requires
            max_address.0 + HEAP_SLACK <= u64::MAX,
            start_address.0 + PAGE_SIZE <= max_address.0 + HEAP_SLACK,
        ensures
            r.wf(),
            r.nodes@ == seq![Node { address: start_address.0, used: false, next_node: None }],
            r.end_address == start_address.0 + PAGE_SIZE,
            r.max_address == max_address.0,
    {
        let mut nodes = Vec::new();
        nodes.push(Node { address: start_address.0, used: false, next_node: None });
        let r = LinkedListAllocator { max_address: max_address.0, nodes, end_address: start_address.0 + PAGE_SIZE };
        proof {
            reveal(ordered);
            reveal(linked);
        }
        assert(r.nodes@ =~= seq![Node { address: start_address.0, used: false, next_node: None }]);
        r
    }

    /// Returns an iterator over the nodes.
    pub fn iter_mut(&self) -> (r: LinkedListIterator)
        ensures
            r.current_node == 0,
            !r.last_node,
    {
        LinkedListIterator { current_node: 0, last_node: false }
    }

    /// Splits node `i` to fit the allocation and returns its start address.
    ///
    /// The pages up to the end of the header of the node that follows the
    /// allocation are mapped.
    fn split(&mut self, i: usize, size: u64, alignment: u64) -> (r: u64)
        requires
            old(self).wf(),
            is_power_of_two(alignment),
            old(self).max_address + HEAP_SLACK + size + alignment + 64 <= u64::MAX,
            i < old(self).nodes@.len(),
            old(self).nodes@[i as int].spec_space_waste(old(self).max_address, size, alignment) is Some,
        ensures
            final(self).wf(),
            r == old(self).nodes@[i as int].block_start(alignment),
            final(self).nodes@ == split_nodes(old(self).nodes@, i as int, size, alignment),
            final(self).max_address == old(self).max_address,
            final(self).end_address >= old(self).end_address,
            final(self).end_address >= old(self).nodes@[i as int].next_start(size, alignment) + NODE_SIZE,
            (final(self).end_address - old(self).end_address) % (PAGE_SIZE as int) == 0,
            final(self).end_address > old(self).end_address ==> final(self).end_address - PAGE_SIZE
                < old(self).nodes@[i as int].next_start(size, alignment) + NODE_SIZE,
    {
        let ghost nodes = self.nodes@;
        let n = self.nodes.len();
        let node = self.nodes[i];
        proof {
            lemma_node_align_is_power_of_two();
            if i + 1 < n {
                lemma_ordered_at(nodes, i as int, n - 1);
            }
            lemma_linked_at(nodes, i as int);
        }
        let start_address = VirtualAddress(node.address + NODE_SIZE);
        let aligned_address = align(start_address, alignment);
        let next_node_start = align(VirtualAddress(aligned_address.0 + size), NODE_ALIGN);
        proof {
            if i + 1 < n {
                lemma_linked_at(nodes, i + 1);
                if i + 1 < n - 1 {
                    lemma_ordered_at(nodes, i + 1, n - 1);
                }
            }
        }
        proof {
            if next_node_start.0 + NODE_SIZE > self.end_address {
                assert(i + 1 == n);
            }
        }
        // Map all the necessary pages.
        let mut end_address = self.end_address;
        while next_node_start.0 + NODE_SIZE > end_address
            invariant
                end_address >= self.end_address,
                end_address <= self.max_address + HEAP_SLACK,
                (end_address - self.end_address) % (PAGE_SIZE as int) == 0,
                end_address > self.end_address ==> end_address - PAGE_SIZE < next_node_start.0 + NODE_SIZE,
                next_node_start.0 + NODE_SIZE > self.end_address ==> next_node_start.0 + NODE_SIZE
                    + PAGE_SIZE <= self.max_address + HEAP_SLACK,
                self.max_address + HEAP_SLACK <= u64::MAX,
            decreases next_node_start.0 + NODE_SIZE + PAGE_SIZE - end_address,
        {
            end_address = end_address + PAGE_SIZE;
        }
        self.end_address = end_address;

        if node.next_node.is_none() || node.next_node.unwrap() != next_node_start.0 {
            self.nodes.set(i, Node { address: node.address, used: true, next_node: Some(next_node_start.0) });
            self.nodes.insert(i + 1, Node { address: next_node_start.0, used: false, next_node: node.next_node });
        } else {
            self.nodes.set(i, Node { address: node.address, used: true, next_node: node.next_node });
        }
        proof {
            lemma_split_wf(nodes, i as int, size, alignment);
            assert(self.nodes@ == split_nodes(nodes, i as int, size, alignment));
            assert(self.nodes@.last() == self.nodes@[self.nodes@.len() - 1]);
            assert(nodes.last() == nodes[n - 1]);
        }
        aligned_address.0
    }

    /// Allocates the first chunk of memory that fits the given size and
    /// alignment.
    ///
    /// Returns the start address of the allocation, or 0 if no block fits.
    pub fn allocate_first_fit(&mut self, size: u64, alignment: u64) -> (r: u64)
        requires
            old(self).wf(),
            is_power_of_two(alignment),
            old(self).max_address + HEAP_SLACK + size + alignment + 64 <= u64::MAX,
        ensures
            final(self).wf(),
            ({
                let i = first_fit_from(old(self).nodes@, old(self).max_address, size, alignment, 0);
                &&& i == old(self).nodes@.len() ==> r == 0 && *final(self) == *old(self)
                &&& i < old(self).nodes@.len() ==> {
                    &&& r == old(self).nodes@[i].block_start(alignment)
                    &&& final(self).nodes@ == split_nodes(old(self).nodes@, i, size, alignment)
                    &&& final(self).max_address == old(self).max_address
                    &&& final(self).end_address >= old(self).end_address
                    &&& final(self).end_address >= old(self).nodes@[i].next_start(size, alignment) + NODE_SIZE
                    &&& (final(self).end_address - old(self).end_address) % (PAGE_SIZE as int) == 0
                    &&& final(self).end_address > old(self).end_address ==> final(self).end_address
                        - PAGE_SIZE < old(self).nodes@[i].next_start(size, alignment) + NODE_SIZE
                }
            }),
            r == 0 <==> forall|j: int| 0 <= j < old(self).nodes@.len() ==> (#[trigger] old(self).nodes@[j].spec_space_waste(
                old(self).max_address,
                size,
                alignment,
            )) is None,
            r != 0 ==> {
                let i = first_fit_from(old(self).nodes@, old(self).max_address, size, alignment, 0);
                &&& final(self).used() == old(self).used().insert(old(self).nodes@[i].address)
                &&& r % alignment == 0
                &&& old(self).nodes@[i].address + NODE_SIZE <= r
                &&& i + 1 < final(self).nodes@.len()
                &&& r + size <= final(self).nodes@[i + 1].address
                &&& final(self).nodes@[i].address == old(self).nodes@[i].address
                &&& final(self).nodes@[i].used
            },
    {
        proof {
            lemma_first_fit(self.nodes@, self.max_address, size, alignment, 0);
        }
        let n = self.nodes.len();
        let mut i: usize = 0;
        while i < n
            invariant
                *self == *old(self),
                self.wf(),
                n == self.nodes@.len(),
                0 <= i <= n,
                is_power_of_two(alignment),
                self.max_address + HEAP_SLACK + size + alignment + 64 <= u64::MAX,
                first_fit_from(self.nodes@, self.max_address, size, alignment, 0)
                    == first_fit_from(self.nodes@, self.max_address, size, alignment, i as int),
            decreases n - i,
        {
            proof {
                if i + 1 < n {
                    lemma_ordered_at(self.nodes@, i as int, n - 1);
                }
            }
            if self.nodes[i].space_waste(VirtualAddress(self.max_address), size, alignment).is_some() {
                let ghost nodes = self.nodes@;
                proof {
                    lemma_split_used(nodes, i as int, size, alignment);
                    lemma_power_of_two_mask(0, alignment);
                    lemma_round_up(nodes[i as int].address + NODE_SIZE, alignment as int);
                    lemma_round_up(nodes[i as int].block_start(alignment) + size, NODE_ALIGN as int);
                    lemma_linked_at(nodes, i as int);
                }
                let r = self.split(i, size, alignment);
                assert(r != 0);
                return r;
            }
            i = i + 1;
        }
        0
    }
}

impl LinkedListAllocator {
    /// Frees used node `i`, merging it with free neighbours; when it ends up
    /// as the last node, the pages beyond its header are given back.
    fn merge(&mut self, i: usize)
        requires
            old(self).wf(),
            i < old(self).nodes@.len(),
            old(self).nodes@[i as int].used,
        ensures
            final(self).wf(),
            final(self).max_address == old(self).max_address,
            i + 2 < old(self).nodes@.len() ==> {
                &&& final(self).nodes@ == merge_inner_nodes(old(self).nodes@, i as int)
                &&& final(self).end_address == old(self).end_address
            },
            i + 2 == old(self).nodes@.len() ==> {
                let last = merge_last_index(old(self).nodes@, i as int);
                let last_address = old(self).nodes@[last].address + NODE_SIZE;
                &&& final(self).nodes@ == merge_last_nodes(old(self).nodes@, i as int)
                &&& final(self).end_address <= old(self).end_address
                &&& (old(self).end_address - final(self).end_address) % (PAGE_SIZE as int) == 0
                &&& final(self).end_address - PAGE_SIZE <= last_address
                &&& final(self).end_address < old(self).end_address ==> final(self).end_address > last_address
            },
    {
        let ghost nodes = self.nodes@;
        let n = self.nodes.len();
        let node = self.nodes[i];
        if i + 2 < n {
            // The node lies between other nodes.
            let next = self.nodes[i + 1];
            if !next.used {
                // Merge with the next node.
                self.nodes.set(i, Node { address: node.address, used: false, next_node: next.next_node });
                self.nodes.remove(i + 1);
            } else {
                self.nodes.set(i, Node { address: node.address, used: false, next_node: node.next_node });
            }
            let ghost freed = self.nodes@;
            if i > 0 && !self.nodes[i - 1].used {
                // Merge with the previous node.
                let previous = self.nodes[i - 1];
                let next_of_self = self.nodes[i].next_node;
                self.nodes.set(i - 1, Node { address: previous.address, used: false, next_node: next_of_self });
                self.nodes.remove(i);
            }
            proof {
                lemma_merge_inner_wf(nodes, i as int);
                assert(self.nodes@ == merge_inner_nodes(nodes, i as int));
                assert(self.nodes@.last() == self.nodes@[self.nodes@.len() - 1]);
            }
        } else {
            // The end of the list is reached.
            let last = if i > 0 && !self.nodes[i - 1].used { i - 1 } else { i };
            let last_node = self.nodes[last];
            self.nodes.set(last, Node { address: last_node.address, used: false, next_node: None });
            self.nodes.truncate(last + 1);
            proof {
                reveal(ordered);
                reveal(linked);
                let r = self.nodes@;
                assert(r == merge_last_nodes(nodes, i as int));
                assert forall|a: int, b: int| 0 <= a < b < r.len() implies #[trigger] r[a].address + NODE_SIZE
                    <= #[trigger] r[b].address by {
                    assert(nodes[a].address + NODE_SIZE <= nodes[b].address);
                }
                assert forall|a: int| 0 <= a < r.len() - 1 implies #[trigger] r[a].next_node == Some(r[a + 1].address) by {
                    assert(nodes[a].next_node == Some(nodes[a + 1].address));
                }
                assert(nodes[last as int].address + NODE_SIZE <= nodes[n - 1].address);
                assert(r[0].address == nodes[0].address);
            }

            // Shrink the heap.
            let last_address = last_node.address + NODE_SIZE;
            let ghost first = nodes[0].address;
            let mut end_address = self.end_address;
            while end_address - PAGE_SIZE > last_address
                invariant
                    end_address <= self.end_address,
                    (self.end_address - end_address) % (PAGE_SIZE as int) == 0,
                    (end_address - first) % (PAGE_SIZE as int) == 0,
                    end_address >= first + PAGE_SIZE,
                    last_address >= first + NODE_SIZE,
                    end_address < self.end_address ==> end_address > last_address,
                decreases end_address,
            {
                end_address = end_address - PAGE_SIZE;
                assert(end_address - first >= PAGE_SIZE) by {
                    assert(end_address > first);
                }
            }
            self.end_address = end_address;
        }
    }

    /// Frees the previously allocated memory chunk pointed to by `ptr`.
    ///
    /// The first used node whose allocation starts at `ptr` is freed; if
    /// there is none, nothing changes.
    pub fn free(&mut self, ptr: u64, size: u64, alignment: u64)
        requires
            old(self).wf(),
            is_power_of_two(alignment),
            old(self).max_address + HEAP_SLACK + size + alignment + 64 <= u64::MAX,
        ensures
            final(self).wf(),
            ({
                let nodes = old(self).nodes@;
                let i = holder_from(nodes, ptr, alignment, 0);
                &&& i == nodes.len() ==> *final(self) == *old(self)
                &&& i + 2 < nodes.len() ==> final(self).nodes@ == merge_inner_nodes(nodes, i)
                    && final(self).end_address == old(self).end_address
                &&& i + 2 == nodes.len() ==> {
                    let last = merge_last_index(nodes, i);
                    let last_address = nodes[last].address + NODE_SIZE;
                    &&& final(self).nodes@ == merge_last_nodes(nodes, i)
                    &&& final(self).end_address <= old(self).end_address
                    &&& (old(self).end_address - final(self).end_address) % (PAGE_SIZE as int) == 0
                    &&& final(self).end_address - PAGE_SIZE <= last_address
                    &&& final(self).end_address < old(self).end_address ==> final(self).end_address > last_address
                }
                &&& final(self).max_address == old(self).max_address
                &&& i < nodes.len() ==> final(self).used() == old(self).used().remove(nodes[i].address)
            }),
    {
        proof {
            lemma_holder(self.nodes@, ptr, alignment, 0);
        }
        let n = self.nodes.len();
        let mut i: usize = 0;
        while i < n
            invariant
                *self == *old(self),
                self.wf(),
                n == self.nodes@.len(),
                0 <= i <= n,
                is_power_of_two(alignment),
                self.max_address + HEAP_SLACK + size + alignment + 64 <= u64::MAX,
                holder_from(self.nodes@, ptr, alignment, 0) == holder_from(self.nodes@, ptr, alignment, i as int),
            decreases n - i,
        {
            proof {
                if i + 1 < n {
                    lemma_ordered_at(self.nodes@, i as int, n - 1);
                }
            }
            if self.nodes[i].contains_allocation(ptr, size, alignment) {
                // The entry to be freed.
                proof {
                    let nodes = self.nodes@;
                    if i + 2 < n {
                        lemma_merge_inner_used(nodes, i as int);
                    } else {
                        lemma_merge_last_used(nodes, i as int);
                    }
                }
                self.merge(i);
                return;
            }
            i = i + 1;
        }
    }
}

/// Provides an iteration over the nodes of the allocator.
pub struct LinkedListIterator {
    /// The index of the current node.
    pub current_node: usize,
    /// An indicator whether the current node is the last node.
    pub last_node: bool,
}

impl LinkedListIterator {
    /// Returns the address of the next node, if there is one: every node
    /// once, in list order.
    pub fn next(&mut self, allocator: &LinkedListAllocator) -> (r: Option<u64>)
        requires
            allocator.wf(),
            old(self).current_node < allocator.nodes@.len(),
        ensures
            final(self).current_node < allocator.nodes@.len(),
            old(self).last_node ==> r is None && *final(self) == *old(self),
            !old(self).last_node ==> {
                &&& r == Some(allocator.nodes@[old(self).current_node as int].address)
                &&& old(self).current_node + 1 < allocator.nodes@.len() ==> final(self).current_node
                    == old(self).current_node + 1 && !final(self).last_node
                &&& old(self).current_node + 1 == allocator.nodes@.len() ==> final(self).current_node
                    == old(self).current_node && final(self).last_node
            },
    {
        let n = allocator.nodes.len();
        let node = allocator.nodes[self.current_node];
        proof {
            lemma_linked_at(allocator.nodes@, self.current_node as int);
        }
        match node.next_node {
            Some(_) => {
                if self.last_node {
                    None
                } else {
                    let old_node = self.current_node;
                    self.current_node = self.current_node + 1;
                    Some(allocator.nodes[old_node].address)
                }
            },
            None => {
                if self.last_node {
                    None
                } else {
                    self.last_node = true;
                    Some(node.address)
                }
            },
        }
    }
}

} // verus!
