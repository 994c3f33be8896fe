//! The list of free physical memory areas and the page frame allocator that
//! is built on it.
//!
//! The list is kept in the order of the start addresses of its entries.
//! Inserting an area merges it with the entries directly before and after it
//! when they touch.

use vstd::prelude::*;
use crate::memory::{MemoryArea, PhysicalAddress, PAGE_SIZE};
use crate::paging::PageFrame;

verus! {

/// An entry in the list of free memory areas.
#[derive(Clone, Copy, Debug, PartialEq, Eq, Structural)]
pub struct FreeListEntry {
    /// The start address of this entry.
    pub start: u64,
    /// The length of this entry.
    pub length: u64,
}

impl FreeListEntry {
    /// Creates a new free list entry.
    pub fn new(start: u64, length: u64) -> (r: FreeListEntry)
        ensures
            r.start == start,
            r.length == length,
    {
        FreeListEntry { start, length }
    }

    /// The first address after the entry.
    pub open spec fn end(self) -> int {
        self.start + self.length
    }
}

/// The length of an area rounded down to whole pages.
pub open spec fn page_floor(length: u64) -> u64 {
    (length / PAGE_SIZE * PAGE_SIZE) as u64
}

/// The index of the entry after which an area starting at `start` is placed:
/// walking from index `k`, the list is followed as long as the next entry
/// starts before `start`.
pub open spec fn walk_from(es: Seq<FreeListEntry>, start: u64, k: int) -> int
    decreases es.len() - k,
{
    if k + 1 < es.len() && es[k + 1].start < start {
        walk_from(es, start, k + 1)
    } else {
        k
    }
}

/// The index of the entry after which an area starting at `start` is placed.
pub open spec fn walk_index(es: Seq<FreeListEntry>, start: u64) -> int {
    walk_from(es, start, 0)
}

/// The conditions under which inserting the area neither overflows nor
/// trips one of the overlap checks.
pub open spec fn insert_allowed(es: Seq<FreeListEntry>, start: u64, length: u64) -> bool {
    if es.len() == 0 {
        true
    } else if es[0].start > start {
        &&& start + length <= u64::MAX
        &&& (es[0].start == start + length ==> es[0].length + page_floor(length) <= u64::MAX)
    } else {
        let k = walk_index(es, start);
        let e = es[k];
        &&& start + length <= u64::MAX
        &&& e.end() <= start
        &&& (k + 1 < es.len() ==> start + length >= 1 && es[k + 1].start >= start + length)
        &&& (e.end() == start && k + 1 < es.len() && start + length == es[k + 1].start
            ==> e.length + length + es[k + 1].length <= u64::MAX)
        &&& (e.end() == start ==> e.length + length <= u64::MAX)
        &&& (k + 1 < es.len() && start + length == es[k + 1].start
            ==> page_floor(length) + es[k + 1].length <= u64::MAX)
    }
}

/// The list after inserting the area that starts at `start` and is `length`
/// bytes long.
///
/// A new entry gets the length rounded down to whole pages; when the area
/// is merged into the entry before it, its whole length is added.
pub open spec fn spec_insert(es: Seq<FreeListEntry>, start: u64, length: u64) -> Seq<FreeListEntry> {
    let len = page_floor(length);
    if es.len() == 0 {
        seq![FreeListEntry { start, length: len }]
    } else if es[0].start > start {
        if es[0].start == start + length {
            es.update(0, FreeListEntry { start, length: (es[0].length + len) as u64 })
        } else {
            es.insert(0, FreeListEntry { start, length: len })
        }
    } else {
        let k = walk_index(es, start);
        let e = es[k];
        let front = e.end() == start;
        let back = k + 1 < es.len() && start + length == es[k + 1].start;
        if front && back {
            es.update(k, FreeListEntry { start: e.start, length: (e.length + length + es[k + 1].length) as u64 }).remove(k + 1)
        } else if front {
            es.update(k, FreeListEntry { start: e.start, length: (e.length + length) as u64 })
        } else if back {
            es.update(k + 1, FreeListEntry { start, length: (len + es[k + 1].length) as u64 })
        } else {
            es.insert(k + 1, FreeListEntry { start, length: len })
        }
    }
}

/// The entry with the given start and length, found as removing looks for
/// it: the first entry, or the one after the entry that walking the list
/// stops at. The length of the list if neither matches.
pub open spec fn remove_index(es: Seq<FreeListEntry>, start: u64, length: u64) -> int {
    if es.len() == 0 {
        0
    } else if es[0].start == start && es[0].length == length {
        0
    } else {
        let k = walk_index(es, start);
        if k + 1 < es.len() && es[k + 1].start == start && es[k + 1].length == length {
            k + 1
        } else {
            es.len() as int
        }
    }
}

/// In a canonical list, removing finds the entry with the given start and
/// length if there is one.
pub proof fn lemma_remove_index(es: Seq<FreeListEntry>, start: u64, length: u64)
    requires
        canonical(es),
    ensures
        (exists|j: int| 0 <= j < es.len() && #[trigger] es[j].start == start && es[j].length == length) ==> {
            let i = remove_index(es, start, length);
            &&& 0 <= i < es.len()
            &&& es[i].start == start
            &&& es[i].length == length
        },
        !(exists|j: int| 0 <= j < es.len() && #[trigger] es[j].start == start && es[j].length == length)
            ==> remove_index(es, start, length) == es.len(),
{
    if exists|j: int| 0 <= j < es.len() && #[trigger] es[j].start == start && es[j].length == length {
        let j = choose|j: int| 0 <= j < es.len() && #[trigger] es[j].start == start && es[j].length == length;
        if j > 0 {
            assert(es[0].end() < es[j].start);
            lemma_walk_from_bounds(es, start, 0);
            let k = walk_index(es, start);
            assert(es[j - 1].end() < es[j].start);
            if k + 1 < j {
                assert(es[k + 1].end() < es[j].start);
            }
            if k >= j {
                assert(es[j].start < start);
            }
            assert(k + 1 == j);
        }
    } else {
        if es.len() > 0 {
            lemma_walk_from_bounds(es, start, 0);
            let k = walk_index(es, start);
            if k + 1 < es.len() && es[k + 1].start == start && es[k + 1].length == length {
                assert(es[k + 1].start == start);
            }
        }
    }
}

/// Represents the list of free page frames.
pub struct FreeList {
    /// The entries in list order.
    pub entries: Vec<FreeListEntry>,
}

impl View for FreeList {
    type V = Seq<FreeListEntry>;

    open spec fn view(&self) -> Seq<FreeListEntry> {
        self.entries@
    }
}

proof fn lemma_walk_from_bounds(es: Seq<FreeListEntry>, start: u64, k: int)
    requires
        0 <= k < es.len(),
    ensures
        k <= walk_from(es, start, k) < es.len(),
        walk_from(es, start, k) + 1 < es.len() ==> es[walk_from(es, start, k) + 1].start >= start,
        forall|j: int| k < j <= walk_from(es, start, k) ==> #[trigger] es[j].start < start,
    decreases es.len() - k,
{
    if k + 1 < es.len() && es[k + 1].start < start {
        lemma_walk_from_bounds(es, start, k + 1);
    }
}

impl FreeList {
    /// Creates an empty free list.
    pub fn new() -> (r: FreeList)
        ensures
            r@ == Seq::<FreeListEntry>::empty(),
    {
        FreeList { entries: Vec::new() }
    }

    /// Finds the index of the entry after which an area starting at `start`
    /// belongs, by following the list from its first entry.
    fn walk(&self, start: u64) -> (k: usize)
        requires
            self@.len() > 0,
        ensures
            k == walk_index(self@, start),
            k < self@.len(),
    {
        let n = self.entries.len();
        let mut k: usize = 0;
        proof {
            lemma_walk_from_bounds(self@, start, 0);
        }
        while k + 1 < n && self.entries[k + 1].start < start
            invariant
                n == self@.len(),
                0 <= k < n,
                walk_from(self@, start, k as int) == walk_index(self@, start),
            decreases n - k,
        {
            k = k + 1;
        }
        proof {
            lemma_walk_from_bounds(self@, start, 0);
        }
        k
    }

    /// Inserts a given area into the list.
    ///
    /// It is merged with the entry before it when that entry ends where the
    /// area starts, and with the entry after it when the area ends where
    /// that entry starts.
    pub fn insert(&mut self, mem_area: MemoryArea<PhysicalAddress>)
        requires
            insert_allowed(old(self)@, mem_area.start_address.0, mem_area.length),
        ensures
            final(self)@ == spec_insert(old(self)@, mem_area.start_address.0, mem_area.length),
    {
        let length = (mem_area.length / PAGE_SIZE) * PAGE_SIZE;
        let start = mem_area.start_address.0;
        let n = self.entries.len();
        if n == 0 {
            // Adding the only entry in the list.
            self.entries.push(FreeListEntry::new(start, length));
            assert(self@ =~= seq![FreeListEntry { start, length }]);
        } else if self.entries[0].start > start {
            // Adding at the beginning of the list.
            let end = mem_area.end_address().0;
            if self.entries[0].start == end {
                let first_length = self.entries[0].length;
                self.entries.set(0, FreeListEntry::new(start, first_length + length));
            } else {
                self.entries.insert(0, FreeListEntry::new(start, length));
            }
        } else {
            // Adding at any position other than the beginning.
            let k = self.walk(start);
            let entry = self.entries[k];
            let end = mem_area.end_address().0;
            let front_merge = entry.start + entry.length == start;
            let back_merge = k + 1 < n && end == self.entries[k + 1].start;
            if front_merge && back_merge {
                let next_length = self.entries[k + 1].length;
                self.entries.set(k, FreeListEntry::new(entry.start, entry.length + mem_area.length + next_length));
                self.entries.remove(k + 1);
            } else if front_merge {
                self.entries.set(k, FreeListEntry::new(entry.start, entry.length + mem_area.length));
            } else if back_merge {
                let next_length = self.entries[k + 1].length;
                self.entries.set(k + 1, FreeListEntry::new(start, length + next_length));
            } else {
                self.entries.insert(k + 1, FreeListEntry::new(start, length));
            }
        }
    }

    /// Removes the entry with the given start and length from the list, if
    /// it exists; otherwise the list stays as it was.
    pub fn remove(&mut self, mem_area: MemoryArea<PhysicalAddress>)
        ensures
            ({
                let i = remove_index(old(self)@, mem_area.start_address.0, mem_area.length);
                &&& i < old(self)@.len() ==> final(self)@ == old(self)@.remove(i)
                &&& i >= old(self)@.len() ==> final(self)@ == old(self)@
            }),
            canonical(old(self)@) && (exists|j: int| 0 <= j < old(self)@.len() && #[trigger] old(self)@[j].start
                == mem_area.start_address.0 && old(self)@[j].length == mem_area.length) ==> {
                let i = remove_index(old(self)@, mem_area.start_address.0, mem_area.length);
                &&& final(self)@ == old(self)@.remove(i)
                &&& old(self)@[i].start == mem_area.start_address.0
                &&& old(self)@[i].length == mem_area.length
            },
            canonical(old(self)@) && !(exists|j: int| 0 <= j < old(self)@.len() && #[trigger] old(self)@[j].start
                == mem_area.start_address.0 && old(self)@[j].length == mem_area.length) ==> final(self)@ == old(
                self,
            )@,
    {
        proof {
            if canonical(self@) {
                lemma_remove_index(self@, mem_area.start_address.0, mem_area.length);
            }
        }
        let start = mem_area.start_address.0;
        let n = self.entries.len();
        if n == 0 {
            return;
        }
        if self.entries[0].start == start && self.entries[0].length == mem_area.length {
            // The first entry is to be removed.
            self.entries.remove(0);
        } else {
            let k = self.walk(start);
            if k + 1 < n && self.entries[k + 1].start == start && self.entries[k + 1].length == mem_area.length {
                self.entries.remove(k + 1);
            }
        }
    }

    /// Returns the number of entries.
    pub fn len(&self) -> (r: usize)
        ensures
            r == self@.len(),
    {
        self.entries.len()
    }
}


/// The number of whole frames in the entries.
pub open spec fn total_frames(es: Seq<FreeListEntry>) -> nat
    decreases es.len(),
{
    if es.len() == 0 {
        0
    } else {
        total_frames(es.drop_last()) + (es.last().length / PAGE_SIZE) as nat
    }
}

/// True if the address lies in some entry of the list.
pub open spec fn is_free(es: Seq<FreeListEntry>, address: int) -> bool {
    exists|i: int| 0 <= i < es.len() && #[trigger] es[i].start <= address < es[i].end()
}

/// The list is in the form that inserting whole, free pages keeps: every
/// entry is a non-empty run of whole pages, and every entry ends strictly
/// before the next one starts.
pub open spec fn canonical(es: Seq<FreeListEntry>) -> bool {
    &&& forall|i: int| 0 <= i < es.len() ==> {
        &&& #[trigger] es[i].start % PAGE_SIZE == 0
        &&& es[i].length % PAGE_SIZE == 0
        &&& es[i].length > 0
        &&& es[i].end() <= u64::MAX
    }
    &&& forall|i: int, j: int| 0 <= i < j < es.len() ==> #[trigger] es[i].end() < #[trigger] es[j].start
}

/// The area `[start, start + length)` shares no address with any entry.
pub open spec fn disjoint_from_all(es: Seq<FreeListEntry>, start: u64, length: u64) -> bool {
    forall|i: int| 0 <= i < es.len() ==> #[trigger] es[i].end() <= start || start + length <= es[i].start
}

proof fn lemma_total_split(es: Seq<FreeListEntry>, i: int)
    requires
        0 <= i < es.len(),
    ensures
        total_frames(es) == total_frames(es.take(i)) + (es[i].length / PAGE_SIZE) as nat
            + total_frames(es.skip(i + 1)),
    decreases es.len(),
{
    if i == es.len() - 1 {
        assert(es.drop_last() =~= es.take(i));
        assert(es.skip(i + 1) =~= Seq::<FreeListEntry>::empty());
    } else {
        lemma_total_split(es.drop_last(), i);
        assert(es.drop_last().take(i) =~= es.take(i));
        assert(es.skip(i + 1).drop_last() =~= es.drop_last().skip(i + 1));
        assert(es.skip(i + 1).last() == es.last());
    }
}

proof fn lemma_total_update(es: Seq<FreeListEntry>, i: int, e: FreeListEntry)
    requires
        0 <= i < es.len(),
    ensures
        total_frames(es.update(i, e)) + (es[i].length / PAGE_SIZE) as nat
            == total_frames(es) + (e.length / PAGE_SIZE) as nat,
{
    let u = es.update(i, e);
    lemma_total_split(es, i);
    lemma_total_split(u, i);
    assert(u.take(i) =~= es.take(i));
    assert(u.skip(i + 1) =~= es.skip(i + 1));
}

proof fn lemma_total_insert(es: Seq<FreeListEntry>, i: int, e: FreeListEntry)
    requires
        0 <= i <= es.len(),
    ensures
        total_frames(es.insert(i, e)) == total_frames(es) + (e.length / PAGE_SIZE) as nat,
{
    let u = es.insert(i, e);
    lemma_total_split(u, i);
    assert(u.take(i) =~= es.take(i));
    assert(u.skip(i + 1) =~= es.skip(i));
    if i < es.len() {
        lemma_total_split(es, i);
        assert(es.skip(i).skip(1) =~= es.skip(i + 1));
        lemma_total_split(es.skip(i), 0);
        assert(es.skip(i).take(0) =~= Seq::<FreeListEntry>::empty());
    } else {
        assert(es.take(i) =~= es);
        assert(es.skip(i) =~= Seq::<FreeListEntry>::empty());
    }
}

proof fn lemma_total_remove(es: Seq<FreeListEntry>, i: int)
    requires
        0 <= i < es.len(),
    ensures
        total_frames(es.remove(i)) + (es[i].length / PAGE_SIZE) as nat == total_frames(es),
{
    lemma_total_insert(es.remove(i), i, es[i]);
    assert(es.remove(i).insert(i, es[i]) =~= es);
}


proof fn lemma_walk_position(es: Seq<FreeListEntry>, start: u64, length: u64)
    requires
        canonical(es),
        es.len() > 0,
        es[0].start <= start,
        length > 0,
        disjoint_from_all(es, start, length),
    ensures
        ({
            let k = walk_index(es, start);
            &&& 0 <= k < es.len()
            &&& es[k].end() <= start
            &&& forall|j: int| 0 <= j <= k ==> #[trigger] es[j].start <= start
            &&& k + 1 < es.len() ==> start + length <= es[k + 1].start
            &&& forall|j: int| k < j < es.len() ==> #[trigger] es[j].start >= start + length
        }),
{
    lemma_walk_from_bounds(es, start, 0);
    let k = walk_index(es, start);
    assert(es[k].start <= start);
    assert(es[k].end() <= start || start + length <= es[k].start);
    if k + 1 < es.len() {
        assert(es[k + 1].end() <= start || start + length <= es[k + 1].start);
        assert forall|j: int| k < j < es.len() implies #[trigger] es[j].start >= start + length by {
            if j > k + 1 {
                assert(es[k + 1].end() < es[j].start);
            }
        }
    }
}

/// The conditions of the insertion law.
pub open spec fn insert_pre(es: Seq<FreeListEntry>, start: u64, length: u64) -> bool {
    &&& canonical(es)
    &&& start % PAGE_SIZE == 0
    &&& length % PAGE_SIZE == 0
    &&& length > 0
    &&& start + length <= u64::MAX
    &&& disjoint_from_all(es, start, length)
}

/// What the insertion law promises.
pub open spec fn insert_post(es: Seq<FreeListEntry>, start: u64, length: u64) -> bool {
    &&& insert_allowed(es, start, length)
    &&& canonical(spec_insert(es, start, length))
    &&& total_frames(spec_insert(es, start, length)) == total_frames(es) + (length / PAGE_SIZE) as nat
    &&& forall|x: int| is_free(spec_insert(es, start, length), x)
        <==> (is_free(es, x) || start <= x < start + length)
}

proof fn lemma_insert_into_empty(es: Seq<FreeListEntry>, start: u64, length: u64)
    requires
        insert_pre(es, start, length),
        es.len() == 0,
    ensures
        insert_post(es, start, length),
{
    let r = spec_insert(es, start, length);
    let a = FreeListEntry { start, length };
    assert(page_floor(length) == length);

    assert(r =~= seq![a]);
    assert(total_frames(r) == total_frames(r.drop_last()) + length / PAGE_SIZE);
    assert(r.drop_last() =~= Seq::<FreeListEntry>::empty());
    assert forall|x: int| is_free(r, x) <==> (is_free(es, x) || start <= x < start + length) by {
        if start <= x < start + length {
            assert(r[0].start <= x < r[0].end());
        }
    }
}

#[verifier::spinoff_prover]
#[verifier::rlimit(40)]
proof fn lemma_insert_merging_first(es: Seq<FreeListEntry>, start: u64, length: u64)
    requires
        insert_pre(es, start, length),
        es.len() > 0 && es[0].start > start && es[0].start == start + length,
    ensures
        insert_post(es, start, length),
{
    let r = spec_insert(es, start, length);
    let a = FreeListEntry { start, length };
    assert(page_floor(length) == length);
    assert(es[0].end() <= start || start + length <= es[0].start);

    let m = FreeListEntry { start, length: (es[0].length + length) as u64 };
    assert(r == es.update(0, m));
    lemma_total_update(es, 0, m);
    assert((es[0].length + length) / (PAGE_SIZE as int) == es[0].length / PAGE_SIZE + length / PAGE_SIZE);
    assert forall|i: int, j: int| 0 <= i < j < r.len() implies #[trigger] r[i].end() < #[trigger] r[j].start by {
        assert(es[i].end() < es[j].start);
    }
    assert forall|x: int| is_free(r, x) <==> (is_free(es, x) || start <= x < start + length) by {
        if is_free(r, x) {
            let i = choose|i: int| 0 <= i < r.len() && #[trigger] r[i].start <= x < r[i].end();
            if i == 0 {
                if x >= start + length {
                    assert(es[0].start <= x < es[0].end());
                }
            } else {
                assert(es[i].start <= x < es[i].end());
            }
        }
        if is_free(es, x) {
            let i = choose|i: int| 0 <= i < es.len() && #[trigger] es[i].start <= x < es[i].end();
            assert(r[i].start <= x < r[i].end());
        }
        if start <= x < start + length {
            assert(r[0].start <= x < r[0].end());
        }
    }
    assert forall|i: int| 0 <= i < r.len() implies {
        &&& #[trigger] r[i].start % PAGE_SIZE == 0
        &&& r[i].length % PAGE_SIZE == 0
        &&& r[i].length > 0
        &&& r[i].end() <= u64::MAX
    } by {
        if i != 0 {
            assert(r[i] == es[i]);
        }
    }
    assert(canonical(r));
    assert(total_frames(r) == total_frames(es) + (length / PAGE_SIZE) as nat);
}

proof fn lemma_insert_before_first(es: Seq<FreeListEntry>, start: u64, length: u64)
    requires
        insert_pre(es, start, length),
        es.len() > 0 && es[0].start > start && es[0].start != start + length,
    ensures
        insert_post(es, start, length),
{
    let r = spec_insert(es, start, length);
    let a = FreeListEntry { start, length };
    assert(page_floor(length) == length);
    assert(es[0].end() <= start || start + length <= es[0].start);
    assert(r == es.insert(0, a));
    lemma_total_insert(es, 0, a);
    assert forall|i: int, j: int| 0 <= i < j < r.len() implies #[trigger] r[i].end() < #[trigger] r[j].start by {
        if i == 0 {
            if j > 1 {
                assert(es[0].end() < es[j - 1].start);
            }
        } else {
            assert(es[i - 1].end() < es[j - 1].start);
        }
    }
    assert forall|x: int| is_free(r, x) <==> (is_free(es, x) || start <= x < start + length) by {
        if is_free(r, x) {
            let i = choose|i: int| 0 <= i < r.len() && #[trigger] r[i].start <= x < r[i].end();
            if i > 0 {
                assert(es[i - 1].start <= x < es[i - 1].end());
            }
        }
        if is_free(es, x) {
            let i = choose|i: int| 0 <= i < es.len() && #[trigger] es[i].start <= x < es[i].end();
            assert(r[i + 1].start <= x < r[i + 1].end());
        }
        if start <= x < start + length {
            assert(r[0].start <= x < r[0].end());
        }
    }
}

proof fn lemma_insert_merging_both(es: Seq<FreeListEntry>, start: u64, length: u64)
    requires
        insert_pre(es, start, length),
        es.len() > 0 && es[0].start <= start && es[walk_index(es, start)].end() == start && walk_index(es, start) + 1 < es.len() && start + length == es[walk_index(es, start) + 1].start,
    ensures
        insert_post(es, start, length),
{
    let r = spec_insert(es, start, length);
    let a = FreeListEntry { start, length };
    assert(page_floor(length) == length);
    lemma_walk_position(es, start, length);
    let k = walk_index(es, start);
    let e = es[k];

    let m = FreeListEntry { start: e.start, length: (e.length + length + es[k + 1].length) as u64 };
    let u = es.update(k, m);
    assert(r == u.remove(k + 1));
    lemma_total_update(es, k, m);
    lemma_total_remove(u, k + 1);
    assert((e.length + length + es[k + 1].length) / (PAGE_SIZE as int)
        == e.length / PAGE_SIZE + length / PAGE_SIZE + es[k + 1].length / PAGE_SIZE);
    assert forall|i: int, j: int| 0 <= i < j < r.len() implies #[trigger] r[i].end() < #[trigger] r[j].start by {
        let oi = if i <= k { i } else { i + 1 };
        let oj = if j <= k { j } else { j + 1 };
        if i == k {
            assert(es[k + 1].end() < es[oj].start);
        } else if j == k {
            assert(es[oi].end() < es[k].start);
        } else {
            assert(es[oi].end() < es[oj].start);
        }
    }
    assert forall|x: int| is_free(r, x) <==> (is_free(es, x) || start <= x < start + length) by {
        if is_free(r, x) {
            let i = choose|i: int| 0 <= i < r.len() && #[trigger] r[i].start <= x < r[i].end();
            if i == k {
                if x < start {
                    assert(es[k].start <= x < es[k].end());
                } else if x >= start + length {
                    assert(es[k + 1].start <= x < es[k + 1].end());
                }
            } else if i < k {
                assert(es[i].start <= x < es[i].end());
            } else {
                assert(es[i + 1].start <= x < es[i + 1].end());
            }
        }
        if is_free(es, x) {
            let i = choose|i: int| 0 <= i < es.len() && #[trigger] es[i].start <= x < es[i].end();
            if i <= k {
                assert(r[i].start <= x < r[i].end());
            } else if i == k + 1 {
                assert(r[k].start <= x < r[k].end());
            } else {
                assert(r[i - 1].start <= x < r[i - 1].end());
            }
        }
        if start <= x < start + length {
            assert(r[k].start <= x < r[k].end());
        }
    }
}

#[verifier::spinoff_prover]
#[verifier::rlimit(60)]
proof fn lemma_insert_merging_front(es: Seq<FreeListEntry>, start: u64, length: u64)
    requires
        insert_pre(es, start, length),
        es.len() > 0 && es[0].start <= start && es[walk_index(es, start)].end() == start && !(walk_index(es, start) + 1 < es.len() && start + length == es[walk_index(es, start) + 1].start),
    ensures
        insert_post(es, start, length),
{
    let r = spec_insert(es, start, length);
    let a = FreeListEntry { start, length };
    assert(page_floor(length) == length);
    lemma_walk_position(es, start, length);
    let k = walk_index(es, start);
    let e = es[k];

    let m = FreeListEntry { start: e.start, length: (e.length + length) as u64 };
    assert(r == es.update(k, m));
    lemma_total_update(es, k, m);
    assert((e.length + length) / (PAGE_SIZE as int) == e.length / PAGE_SIZE + length / PAGE_SIZE);
    assert forall|i: int, j: int| 0 <= i < j < r.len() implies #[trigger] r[i].end() < #[trigger] r[j].start by {
        if i == k {
            assert(es[j].start >= start + length);
            assert(k + 1 < es.len() ==> es[k + 1].start != start + length);
            if j > k + 1 {
                assert(es[k + 1].end() < es[j].start);
            }
        } else {
            assert(es[i].end() < es[j].start);
        }
    }
    assert forall|x: int| is_free(r, x) <==> (is_free(es, x) || start <= x < start + length) by {
        if is_free(r, x) {
            let i = choose|i: int| 0 <= i < r.len() && #[trigger] r[i].start <= x < r[i].end();
            if i == k {
                if x < start {
                    assert(es[k].start <= x < es[k].end());
                }
            } else {
                assert(es[i].start <= x < es[i].end());
            }
        }
        if is_free(es, x) {
            let i = choose|i: int| 0 <= i < es.len() && #[trigger] es[i].start <= x < es[i].end();
            assert(r[i].start <= x < r[i].end());
        }
        if start <= x < start + length {
            assert(r[k].start <= x < r[k].end());
        }
    }
    assert forall|i: int| 0 <= i < r.len() implies {
        &&& #[trigger] r[i].start % PAGE_SIZE == 0
        &&& r[i].length % PAGE_SIZE == 0
        &&& r[i].length > 0
        &&& r[i].end() <= u64::MAX
    } by {
        if i != k {
            assert(r[i] == es[i]);
        }
    }
    assert(canonical(r));
    assert(total_frames(r) == total_frames(es) + (length / PAGE_SIZE) as nat);
}

proof fn lemma_insert_merging_back(es: Seq<FreeListEntry>, start: u64, length: u64)
    requires
        insert_pre(es, start, length),
        es.len() > 0 && es[0].start <= start && !(es[walk_index(es, start)].end() == start) && walk_index(es, start) + 1 < es.len() && start + length == es[walk_index(es, start) + 1].start,
    ensures
        insert_post(es, start, length),
{
    let r = spec_insert(es, start, length);
    let a = FreeListEntry { start, length };
    assert(page_floor(length) == length);
    lemma_walk_position(es, start, length);
    let k = walk_index(es, start);
    let e = es[k];

    let m = FreeListEntry { start, length: (length + es[k + 1].length) as u64 };
    assert(r == es.update(k + 1, m));
    lemma_total_update(es, k + 1, m);
    assert((length + es[k + 1].length) / (PAGE_SIZE as int) == length / PAGE_SIZE + es[k + 1].length / PAGE_SIZE);
    assert forall|i: int, j: int| 0 <= i < j < r.len() implies #[trigger] r[i].end() < #[trigger] r[j].start by {
        if j == k + 1 {
            if i < k {
                assert(es[i].end() < es[k].start);
            }
        } else if i == k + 1 {
            assert(es[k + 1].end() < es[j].start);
        } else {
            assert(es[i].end() < es[j].start);
        }
    }
    assert forall|x: int| is_free(r, x) <==> (is_free(es, x) || start <= x < start + length) by {
        if is_free(r, x) {
            let i = choose|i: int| 0 <= i < r.len() && #[trigger] r[i].start <= x < r[i].end();
            if i == k + 1 {
                if x >= start + length {
                    assert(es[k + 1].start <= x < es[k + 1].end());
                }
            } else {
                assert(es[i].start <= x < es[i].end());
            }
        }
        if is_free(es, x) {
            let i = choose|i: int| 0 <= i < es.len() && #[trigger] es[i].start <= x < es[i].end();
            assert(r[i].start <= x < r[i].end());
        }
        if start <= x < start + length {
            assert(r[k + 1].start <= x < r[k + 1].end());
        }
    }
}

#[verifier::rlimit(50)]
proof fn lemma_insert_between(es: Seq<FreeListEntry>, start: u64, length: u64)
    requires
        insert_pre(es, start, length),
        es.len() > 0 && es[0].start <= start && !(es[walk_index(es, start)].end() == start) && !(walk_index(es, start) + 1 < es.len() && start + length == es[walk_index(es, start) + 1].start),
    ensures
        insert_post(es, start, length),
{
    let r = spec_insert(es, start, length);
    let a = FreeListEntry { start, length };
    assert(page_floor(length) == length);
    lemma_walk_position(es, start, length);
    let k = walk_index(es, start);
    let e = es[k];
    assert(r == es.insert(k + 1, a));
    lemma_total_insert(es, k + 1, a);
    assert forall|i: int, j: int| 0 <= i < j < r.len() implies #[trigger] r[i].end() < #[trigger] r[j].start by {
        let oi = if i <= k { i } else { i - 1 };
        let oj = if j <= k { j } else { j - 1 };
        if i == k + 1 {
            assert(es[oj].start >= start + length);
            assert(es[k + 1].start != start + length);
            if oj > k + 1 {
                assert(es[k + 1].end() < es[oj].start);
            }
        } else if j == k + 1 {
            if i < k {
                assert(es[i].end() < es[k].start);
            }
        } else {
            assert(es[oi].end() < es[oj].start);
        }
    }
    assert forall|x: int| is_free(r, x) <==> (is_free(es, x) || start <= x < start + length) by {
        if is_free(r, x) {
            let i = choose|i: int| 0 <= i < r.len() && #[trigger] r[i].start <= x < r[i].end();
            if i <= k {
                assert(es[i].start <= x < es[i].end());
            } else if i > k + 1 {
                assert(es[i - 1].start <= x < es[i - 1].end());
            }
        }
        if is_free(es, x) {
            let i = choose|i: int| 0 <= i < es.len() && #[trigger] es[i].start <= x < es[i].end();
            if i <= k {
                assert(r[i].start <= x < r[i].end());
            } else {
                assert(r[i + 1].start <= x < r[i + 1].end());
            }
        }
        if start <= x < start + length {
            assert(r[k + 1].start <= x < r[k + 1].end());
        }
    }
}

/// Inserting a run of whole pages that is free of every entry into a list in
/// canonical form is allowed, keeps the form, adds exactly the inserted
/// pages to the free addresses and adds their number to the frame count.
pub proof fn lemma_insert_free_pages(es: Seq<FreeListEntry>, start: u64, length: u64)
    requires
        insert_pre(es, start, length),
    ensures
        insert_post(es, start, length),
{
    if es.len() == 0 {
        lemma_insert_into_empty(es, start, length);
    } else if es[0].start > start {
        if es[0].start == start + length {
            lemma_insert_merging_first(es, start, length);
        } else {
            lemma_insert_before_first(es, start, length);
        }
    } else {
        let k = walk_index(es, start);
        let front = es[k].end() == start;
        let back = k + 1 < es.len() && start + length == es[k + 1].start;
        if front && back {
            lemma_insert_merging_both(es, start, length);
        } else if front {
            lemma_insert_merging_front(es, start, length);
        } else if back {
            lemma_insert_merging_back(es, start, length);
        } else {
            lemma_insert_between(es, start, length);
        }
    }
}


/// Entries that are non-empty runs of whole pages, end within the address
/// space and follow each other with a gap between them; their starts need
/// not be page aligned.
pub open spec fn separated(es: Seq<FreeListEntry>) -> bool {
    &&& forall|i: int|
        0 <= i < es.len() ==> {
            &&& #[trigger] es[i].length % PAGE_SIZE == 0
            &&& es[i].length > 0
            &&& es[i].end() <= u64::MAX
        }
    &&& forall|i: int, j: int| 0 <= i < j < es.len() ==> #[trigger] es[i].end() < #[trigger] es[j].start
}

/// Inserting a page-aligned, non-empty run of whole pages that shares no
/// address with the list keeps the list separated, whether or not its
/// entries start on page boundaries: an entry that touches the area is
/// merged with it, and the list grows by at most one entry. The insertion
/// is allowed: it neither overflows nor trips an overlap check.
pub proof fn lemma_insert_keeps_separated(es: Seq<FreeListEntry>, start: u64, length: u64)
    requires
        separated(es),
        start % PAGE_SIZE == 0,
        length % PAGE_SIZE == 0,
        length > 0,
        start + length <= u64::MAX,
        disjoint_from_all(es, start, length),
    ensures
        insert_allowed(es, start, length),
        separated(spec_insert(es, start, length)),
        spec_insert(es, start, length).len() <= es.len() + 1,
{
    let r = spec_insert(es, start, length);
    assert(page_floor(length) == length);
    let a = FreeListEntry { start, length };
    if es.len() == 0 {
        assert(r =~= seq![a]);
    } else if es[0].start > start {
        assert(es[0].end() <= start || start + length <= es[0].start);
        assert(start + length <= es[0].start);
        if es[0].start == start + length {
            let m = FreeListEntry { start, length: (es[0].length + length) as u64 };
            assert(r == es.update(0, m));
            assert((es[0].length + length) % (PAGE_SIZE as int) == 0);
            assert forall|i: int, j: int| 0 <= i < j < r.len() implies #[trigger] r[i].end() < #[trigger] r[j].start by {
                assert(es[i].end() < es[j].start);
            }
            assert forall|i: int| 0 <= i < r.len() implies {
                &&& #[trigger] r[i].length % PAGE_SIZE == 0
                &&& r[i].length > 0
                &&& r[i].end() <= u64::MAX
            } by {
                if i != 0 {
                    assert(r[i] == es[i]);
                }
            }
        } else {
            assert(r == es.insert(0, a));
            assert forall|i: int, j: int| 0 <= i < j < r.len() implies #[trigger] r[i].end() < #[trigger] r[j].start by {
                if i == 0 {
                    if j > 1 {
                        assert(es[0].end() < es[j - 1].start);
                    }
                } else {
                    assert(es[i - 1].end() < es[j - 1].start);
                }
            }
            assert forall|i: int| 0 <= i < r.len() implies {
                &&& #[trigger] r[i].length % PAGE_SIZE == 0
                &&& r[i].length > 0
                &&& r[i].end() <= u64::MAX
            } by {
                if i != 0 {
                    assert(r[i] == es[i - 1]);
                }
            }
        }
    } else {
        lemma_walk_from_bounds(es, start, 0);
        let k = walk_index(es, start);
        let e = es[k];
        assert(e.start <= start);
        assert(e.end() <= start || start + length <= e.start);
        assert(e.end() <= start);
        if k + 1 < es.len() {
            assert(es[k + 1].start >= start);
            assert(es[k + 1].end() <= start || start + length <= es[k + 1].start);
            assert(start + length <= es[k + 1].start);
        }
        let front = e.end() == start;
        let back = k + 1 < es.len() && start + length == es[k + 1].start;
        if front && back {
            let m = FreeListEntry { start: e.start, length: (e.length + length + es[k + 1].length) as u64 };
            assert(r == es.update(k, m).remove(k + 1));
            assert(m.end() == es[k + 1].end());
            assert((e.length + length + es[k + 1].length) % (PAGE_SIZE as int) == 0);
            assert forall|i: int, j: int| 0 <= i < j < r.len() implies #[trigger] r[i].end() < #[trigger] r[j].start by {
                if i < k {
                    if j == k {
                        assert(es[i].end() < es[k].start);
                    } else {
                        assert(es[i].end() < es[j + 1].start);
                    }
                } else if i == k {
                    assert(es[k + 1].end() < es[j + 1].start);
                } else {
                    assert(es[i + 1].end() < es[j + 1].start);
                }
            }
            assert forall|i: int| 0 <= i < r.len() implies {
                &&& #[trigger] r[i].length % PAGE_SIZE == 0
                &&& r[i].length > 0
                &&& r[i].end() <= u64::MAX
            } by {
                if i < k {
                    assert(r[i] == es[i]);
                } else if i > k {
                    assert(r[i] == es[i + 1]);
                }
            }
        } else if front {
            let m = FreeListEntry { start: e.start, length: (e.length + length) as u64 };
            assert(r == es.update(k, m));
            assert((e.length + length) % (PAGE_SIZE as int) == 0);
            assert forall|i: int, j: int| 0 <= i < j < r.len() implies #[trigger] r[i].end() < #[trigger] r[j].start by {
                if i == k {
                    assert(es[k + 1].start != start + length);
                    if j > k + 1 {
                        assert(es[k + 1].end() < es[j].start);
                    }
                } else if j == k {
                    assert(es[i].end() < es[k].start);
                } else {
                    assert(es[i].end() < es[j].start);
                }
            }
            assert forall|i: int| 0 <= i < r.len() implies {
                &&& #[trigger] r[i].length % PAGE_SIZE == 0
                &&& r[i].length > 0
                &&& r[i].end() <= u64::MAX
            } by {
                if i != k {
                    assert(r[i] == es[i]);
                }
            }
        } else if back {
            let m = FreeListEntry { start, length: (length + es[k + 1].length) as u64 };
            assert(r == es.update(k + 1, m));
            assert((length + es[k + 1].length) % (PAGE_SIZE as int) == 0);
            assert forall|i: int, j: int| 0 <= i < j < r.len() implies #[trigger] r[i].end() < #[trigger] r[j].start by {
                if j == k + 1 {
                    if i < k {
                        assert(es[i].end() < es[k].start);
                    }
                } else if i == k + 1 {
                    assert(es[k + 1].end() < es[j].start);
                } else {
                    assert(es[i].end() < es[j].start);
                }
            }
            assert forall|i: int| 0 <= i < r.len() implies {
                &&& #[trigger] r[i].length % PAGE_SIZE == 0
                &&& r[i].length > 0
                &&& r[i].end() <= u64::MAX
            } by {
                if i != k + 1 {
                    assert(r[i] == es[i]);
                }
            }
        } else {
            assert(r == es.insert(k + 1, a));
            assert forall|i: int, j: int| 0 <= i < j < r.len() implies #[trigger] r[i].end() < #[trigger] r[j].start by {
                if j <= k {
                    assert(es[i].end() < es[j].start);
                } else if j == k + 1 {
                    if i < k {
                        assert(es[i].end() < es[k].start);
                    }
                } else if i == k + 1 {
                    if j > k + 2 {
                        assert(es[k + 1].end() < es[j - 1].start);
                    }
                } else if i <= k {
                    assert(es[i].end() < es[j - 1].start);
                } else {
                    assert(es[i - 1].end() < es[j - 1].start);
                }
            }
            assert forall|i: int| 0 <= i < r.len() implies {
                &&& #[trigger] r[i].length % PAGE_SIZE == 0
                &&& r[i].length > 0
                &&& r[i].end() <= u64::MAX
            } by {
                if i <= k {
                    assert(r[i] == es[i]);
                } else if i > k + 1 {
                    assert(r[i] == es[i - 1]);
                }
            }
        }
    }
}

/// Taking out the first entry of a list in canonical form keeps the form,
/// removes exactly the addresses of that entry from the free addresses and
/// takes its frames from the frame count.
pub proof fn lemma_remove_first(es: Seq<FreeListEntry>)
    requires
        canonical(es),
        es.len() > 0,
    ensures
        canonical(es.remove(0)),
        total_frames(es.remove(0)) + (es[0].length / PAGE_SIZE) as nat == total_frames(es),
        forall|x: int| is_free(es.remove(0), x) <==> (is_free(es, x) && !(es[0].start <= x < es[0].end())),
{
    let r = es.remove(0);
    lemma_total_remove(es, 0);
    assert forall|i: int, j: int| 0 <= i < j < r.len() implies #[trigger] r[i].end() < #[trigger] r[j].start by {
        assert(es[i + 1].end() < es[j + 1].start);
    }
    assert forall|x: int| is_free(r, x) <==> (is_free(es, x) && !(es[0].start <= x < es[0].end())) by {
        if is_free(r, x) {
            let i = choose|i: int| 0 <= i < r.len() && #[trigger] r[i].start <= x < r[i].end();
            assert(es[i + 1].start <= x < es[i + 1].end());
            assert(es[0].end() < es[i + 1].start);
        }
        if is_free(es, x) && !(es[0].start <= x < es[0].end()) {
            let i = choose|i: int| 0 <= i < es.len() && #[trigger] es[i].start <= x < es[i].end();
            assert(i != 0);
            assert(r[i - 1].start <= x < r[i - 1].end());
        }
    }
}

/// The bytes counted by the frame count of a canonical list all lie below
/// the end of its last entry.
proof fn lemma_total_bounded(es: Seq<FreeListEntry>)
    requires
        canonical(es),
    ensures
        es.len() > 0 ==> total_frames(es) * PAGE_SIZE <= es.last().end(),
        total_frames(es) * PAGE_SIZE <= u64::MAX,
    decreases es.len(),
{
    if es.len() > 0 {
        let d = es.drop_last();
        assert(canonical(d)) by {
            assert forall|i: int, j: int| 0 <= i < j < d.len() implies #[trigger] d[i].end() < #[trigger] d[j].start by {
                assert(es[i].end() < es[j].start);
            }
        }
        lemma_total_bounded(d);
        let l = es.last().length;
        assert(es[es.len() - 1].start % PAGE_SIZE == 0);
        assert(l % PAGE_SIZE == 0);
        assert((l / PAGE_SIZE) * PAGE_SIZE == l);
        assert(total_frames(es) * PAGE_SIZE == total_frames(d) * PAGE_SIZE + (l / PAGE_SIZE) * PAGE_SIZE) by (nonlinear_arith)
            requires
                total_frames(es) == total_frames(d) + (l / PAGE_SIZE) as nat,
        ;
        if d.len() > 0 {
            assert(es[d.len() - 1].end() < es[es.len() - 1].start);
        }
    }
}

/// Walks the free list entry by entry.
pub struct FreeListIterator {
    /// The free list being walked.
    pub list: FreeList,
    /// The index of the entry that is returned next.
    pub next_index: usize,
}

impl FreeListIterator {
    /// Creates a new iterator over the free list.
    pub fn new(list: FreeList) -> (r: FreeListIterator)
        ensures
            r.list@ == list@,
            r.next_index == 0,
    {
        FreeListIterator { list, next_index: 0 }
    }

    /// Creates a new iterator over a list that the caller already holds.
    pub fn from_guard(list: FreeList) -> (r: FreeListIterator)
        ensures
            r.list@ == list@,
            r.next_index == 0,
    {
        FreeListIterator { list, next_index: 0 }
    }

    /// Ends the walk and hands the list back.
    pub fn finish(self) -> (r: FreeList)
        ensures
            r@ == self.list@,
    {
        self.list
    }

    /// Returns the next area of the list, if there is one.
    pub fn next(&mut self) -> (r: Option<MemoryArea<PhysicalAddress>>)
        ensures
            final(self).list@ == old(self).list@,
            old(self).next_index < old(self).list@.len() ==> {
                &&& r is Some
                &&& r->0.start_address.0 == old(self).list@[old(self).next_index as int].start
                &&& r->0.length == old(self).list@[old(self).next_index as int].length
                &&& final(self).next_index == old(self).next_index + 1
            },
            old(self).next_index >= old(self).list@.len() ==> r is None && final(self).next_index
                == old(self).next_index,
    {
        if self.next_index < self.list.entries.len() {
            let entry = self.list.entries[self.next_index];
            self.next_index = self.next_index + 1;
            Some(MemoryArea::new(PhysicalAddress(entry.start), entry.length))
        } else {
            None
        }
    }
}

/// Walking the list never changes it: along any number of steps of `next`
/// from an iterator made by `new` or `from_guard`, each of which keeps the
/// list as its contract says, every iterator holds the list it started
/// with, so `finish` hands that list back; and the first step, if the list
/// is not empty, yields its first entry.
pub proof fn lemma_walk_keeps_list(walk: Seq<FreeListIterator>, list: Seq<FreeListEntry>)
    requires
        walk.len() >= 1,
        walk[0].list@ == list,
        walk[0].next_index == 0,
        forall|k: int| 0 <= k < walk.len() - 1 ==> (#[trigger] walk[k + 1]).list@ == walk[k].list@,
    ensures
        forall|k: int| 0 <= k < walk.len() ==> (#[trigger] walk[k]).list@ == list,
        list.len() > 0 ==> walk[0].next_index < walk[0].list@.len() && walk[0].list@[walk[0].next_index as int]
            == list[0],
    decreases walk.len(),
{
    if walk.len() > 1 {
        let shorter = walk.drop_last();
        lemma_walk_keeps_list(shorter, list);
        assert forall|k: int| 0 <= k < walk.len() implies (#[trigger] walk[k]).list@ == list by {
            if k < walk.len() - 1 {
                assert(shorter[k] == walk[k]);
            } else {
                assert(shorter[k - 1] == walk[k - 1]);
                assert(walk[(k - 1) + 1].list@ == walk[k - 1].list@);
            }
        }
    }
}

/// Used to allocate page frames.
pub struct FrameAllocator {
    /// The number of free frames.
    pub free_frames: u64,
    /// The list of free memory areas.
    pub list: FreeList,
}

impl FrameAllocator {
    /// The free list is in canonical form and the frame count matches it.
    pub open spec fn wf(&self) -> bool {
        &&& canonical(self.list@)
        &&& self.free_frames == total_frames(self.list@)
    }

    /// True if the frame at the address is free.
    pub open spec fn frame_is_free(&self, address: int) -> bool {
        is_free(self.list@, address)
    }

    /// Creates a frame allocator for the free areas in the list, counting
    /// their frames.
    pub fn new(list: FreeList) -> (r: FrameAllocator)
        requires
            canonical(list@),
        ensures
            r.wf(),
            r.list@ == list@,
    {
        proof {
            lemma_total_bounded(list@);
        }
        let ghost es = list@;
        let mut number: u64 = 0;
        let mut iterator = FreeListIterator::new(list);
        let n = iterator.list.entries.len();
        while iterator.next_index < n
            invariant
                iterator.list@ == es,
                n == es.len(),
                iterator.next_index <= n,
                number == total_frames(es.take(iterator.next_index as int)),
                total_frames(es) * PAGE_SIZE <= u64::MAX,
            decreases n - iterator.next_index,
        {
            let ghost i = iterator.next_index as int;
            let entry = iterator.next();
            let area = entry.unwrap();
            proof {
                assert(es.take(i + 1).drop_last() =~= es.take(i));
                lemma_total_split(es, i);
                lemma_total_split(es.take(i + 1), i);
                assert(es.take(i + 1).take(i) =~= es.take(i));
                assert(es.take(i + 1).skip(i + 1) =~= Seq::<FreeListEntry>::empty());
                assert(total_frames(es.take(i + 1)) <= total_frames(es));
            }
            number = number + area.length / PAGE_SIZE;
        }
        let list = iterator.finish();
        assert(es.take(n as int) =~= es);
        FrameAllocator { free_frames: number, list }
    }

    /// Allocates a page frame: the first frame of the first free area.
    ///
    /// Memory must be left: callers check `get_free_frame_num` first, and
    /// stop with an out of memory error when none is.
    pub fn allocate(&mut self) -> (r: PageFrame)
        requires
            old(self).wf(),
            old(self).list@.len() > 0,
        ensures
            final(self).wf(),
            ({
                let frame = r.0;
                &&& frame == old(self).list@[0].start
                &&& frame % PAGE_SIZE == 0
                &&& frame + PAGE_SIZE <= u64::MAX
                &&& final(self).free_frames == old(self).free_frames - 1
                &&& forall|x: int| frame <= x < frame + PAGE_SIZE ==> old(self).frame_is_free(x)
                    && !final(self).frame_is_free(x)
                &&& forall|x: int| !(frame <= x < frame + PAGE_SIZE) ==> (final(self).frame_is_free(x)
                    <==> old(self).frame_is_free(x))
            }),
    {
        let ghost es = self.list@;
        let first = self.list.entries[0];
        let free_area = MemoryArea::new(PhysicalAddress(first.start), first.length);
        let page_frame = PageFrame::from_address(free_area.start_address);
        let new_free_area = free_area.without_first_frame();
        self.list.remove(free_area);
        proof {
            lemma_remove_first(es);
            assert(es[0].start <= es[0].start < es[0].end());
        }
        let ghost removed = self.list@;
        if new_free_area.length > 0 {
            proof {
                assert(new_free_area.length % PAGE_SIZE == 0);
                assert forall|i: int| 0 <= i < removed.len() implies #[trigger] removed[i].end()
                    <= new_free_area.start_address.0 || new_free_area.start_address.0 + new_free_area.length
                    <= removed[i].start by {
                    assert(es[0].end() < es[i + 1].start);
                }
                lemma_insert_free_pages(removed, new_free_area.start_address.0, new_free_area.length);
            }
            self.list.insert(new_free_area);
        }
        assert(es[0].length / PAGE_SIZE >= 1);
        assert((es[0].length - PAGE_SIZE) / (PAGE_SIZE as int) == es[0].length / PAGE_SIZE - 1);
        self.free_frames = self.free_frames - 1;
        page_frame
    }

    /// Returns the frame to the free memory.
    ///
    /// The frame must be page aligned and must not be free already.
    pub fn deallocate(&mut self, frame: PageFrame)
        requires
            old(self).wf(),
            frame.0 % PAGE_SIZE == 0,
            frame.0 + PAGE_SIZE <= u64::MAX,
            disjoint_from_all(old(self).list@, frame.0, PAGE_SIZE),
        ensures
            final(self).wf(),
            final(self).free_frames == old(self).free_frames + 1,
            forall|x: int| final(self).frame_is_free(x) <==> (old(self).frame_is_free(x) || frame.0 <= x
                < frame.0 + PAGE_SIZE),
    {
        proof {
            lemma_insert_free_pages(self.list@, frame.0, PAGE_SIZE);
            lemma_total_bounded(spec_insert(self.list@, frame.0, PAGE_SIZE));
        }
        self.free_frames = self.free_frames + 1;
        self.list.insert(MemoryArea::new(frame.get_address(), PAGE_SIZE));
    }

    /// Returns true if a frame is left to allocate.
    pub fn has_free_frame(&self) -> (r: bool)
        ensures
            r == (self.list@.len() > 0),
    {
        self.list.len() > 0
    }

    /// Returns the current number of free frames.
    pub fn get_free_frame_num(&self) -> (r: u64)
        ensures
            r == self.free_frames,
    {
        self.free_frames
    }

    /// Returns the size of unused physical memory.
    pub fn get_free_memory_size(&self) -> (r: u64)
        requires
            self.wf(),
        ensures
            r == self.free_frames * PAGE_SIZE,
    {
        proof {
            lemma_total_bounded(self.list@);
        }
        self.free_frames * PAGE_SIZE
    }
}

/// A page none of whose addresses is free shares no address with any
/// entry: a frame just allocated can be deallocated again.
pub proof fn lemma_taken_page_disjoint(es: Seq<FreeListEntry>, frame: u64)
    requires
        canonical(es),
        forall|x: int| frame <= x < frame + PAGE_SIZE ==> !is_free(es, x),
    ensures
        disjoint_from_all(es, frame, PAGE_SIZE),
{
    assert forall|i: int| 0 <= i < es.len() implies #[trigger] es[i].end() <= frame || frame + PAGE_SIZE
        <= es[i].start by {
        if !(es[i].end() <= frame || frame + PAGE_SIZE <= es[i].start) {
            let x = if es[i].start > frame { es[i].start as int } else { frame as int };
            assert(es[i].start <= x < es[i].end());
            assert(is_free(es, x));
        }
    }
}

/// Deallocating the frame that was just allocated gives back the free
/// frames as they were before, and their number.
pub proof fn lemma_deallocate_undoes_allocate(
    before: FrameAllocator,
    allocated: FrameAllocator,
    after: FrameAllocator,
    frame: u64,
)
    requires
        before.wf(),
        before.list@.len() > 0,
        allocated.wf(),
        frame == before.list@[0].start,
        allocated.free_frames == before.free_frames - 1,
        forall|x: int| frame <= x < frame + PAGE_SIZE ==> before.frame_is_free(x) && !allocated.frame_is_free(x),
        forall|x: int| !(frame <= x < frame + PAGE_SIZE) ==> (allocated.frame_is_free(x) <==> before.frame_is_free(
            x,
        )),
        after.free_frames == allocated.free_frames + 1,
        forall|x: int| after.frame_is_free(x) <==> (allocated.frame_is_free(x) || frame <= x < frame + PAGE_SIZE),
    ensures
        disjoint_from_all(allocated.list@, frame, PAGE_SIZE),
        after.free_frames == before.free_frames,
        forall|x: int| after.frame_is_free(x) <==> before.frame_is_free(x),
{
    assert forall|x: int| frame <= x < frame + PAGE_SIZE implies !is_free(allocated.list@, x) by {
        assert(!allocated.frame_is_free(x));
    }
    lemma_taken_page_disjoint(allocated.list@, frame);
    assert forall|x: int| after.frame_is_free(x) <==> before.frame_is_free(x) by {
        if frame <= x < frame + PAGE_SIZE {
            assert(before.frame_is_free(x));
        }
    }
}

} // verus!
