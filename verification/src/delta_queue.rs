//! A delta queue to keep track of sleeping threads.
//!
//! Each node holds the time its thread has yet to wait after the node
//! before it has woken up.

use vstd::prelude::*;

verus! {

/// Represents a node in a delta queue.
pub struct DeltaQueueNode<T> {
    /// The thread sleeping in this node.
    pub thread: T,
    /// The time this thread has yet to wait after the node before it (in ms).
    pub time: usize,
}

impl<T> DeltaQueueNode<T> {
    /// Creates a new node for the delta queue.
    pub fn new(thread: T, time: usize) -> (r: DeltaQueueNode<T>)
        ensures
            r.thread == thread,
            r.time == time,
    {
        DeltaQueueNode { thread, time }
    }
}

/// The sum of the times of the first `k` nodes: when the node `k - 1`
/// wakes up.
pub open spec fn prefix_time<T>(nodes: Seq<DeltaQueueNode<T>>, k: int) -> int
    decreases k,
{
    if k <= 0 {
        0
    } else {
        prefix_time(nodes, k - 1) + nodes[k - 1].time
    }
}

/// The place from `k` on where a thread that wakes at `time` is inserted:
/// before the first node that wakes after it, or at the end.
pub open spec fn insert_position<T>(nodes: Seq<DeltaQueueNode<T>>, time: int, k: int) -> int
    decreases nodes.len() - k,
{
    if k >= nodes.len() {
        nodes.len() as int
    } else if time < prefix_time(nodes, k + 1) {
        k
    } else {
        insert_position(nodes, time, k + 1)
    }
}

/// Represents a delta queue.
pub struct DeltaQueue<T> {
    /// The nodes of the queue, the first to wake up first.
    pub nodes: Vec<DeltaQueueNode<T>>,
}

proof fn lemma_insert_position_range<T>(nodes: Seq<DeltaQueueNode<T>>, time: int, k: int)
    requires
        0 <= k <= nodes.len(),
    ensures
        k <= insert_position(nodes, time, k) <= nodes.len(),
        forall|j: int| k < j <= insert_position(nodes, time, k) ==> #[trigger] prefix_time(nodes, j) <= time,
        insert_position(nodes, time, k) < nodes.len() ==> time < prefix_time(
            nodes,
            insert_position(nodes, time, k) + 1,
        ),
    decreases nodes.len() - k,
{
    if k < nodes.len() && time >= prefix_time(nodes, k + 1) {
        lemma_insert_position_range(nodes, time, k + 1);
    }
}

proof fn lemma_prefix_nonneg<T>(nodes: Seq<DeltaQueueNode<T>>, k: int)
    ensures
        prefix_time(nodes, k) >= 0,
    decreases k,
{
    if k > 0 {
        lemma_prefix_nonneg(nodes, k - 1);
    }
}

proof fn lemma_prefix_insert<T>(nodes: Seq<DeltaQueueNode<T>>, p: int, node: DeltaQueueNode<T>, k: int)
    requires
        0 <= p <= nodes.len(),
        0 <= k <= p,
    ensures
        prefix_time(nodes.insert(p, node), k) == prefix_time(nodes, k),
    decreases k,
{
    if k > 0 {
        lemma_prefix_insert(nodes, p, node, k - 1);
    }
}

/// The queue after a thread that wakes up `time` ms from now went in:
/// the new node holds its time after the node before it, and the node it
/// goes in front of gives up that much of its own time.
pub open spec fn inserted_nodes<T>(nodes: Seq<DeltaQueueNode<T>>, thread: T, time: int) -> Seq<
    DeltaQueueNode<T>,
> {
    let p = insert_position(nodes, time, 0);
    let delta = time - prefix_time(nodes, p);
    let adjusted = if p < nodes.len() {
        nodes.update(
            p,
            DeltaQueueNode { thread: nodes[p].thread, time: (nodes[p].time - delta) as usize },
        )
    } else {
        nodes
    };
    adjusted.insert(p, DeltaQueueNode { thread, time: delta as usize })
}

/// Where the node at `j` stands after a node went in at `p`.
pub open spec fn shifted_index(j: int, p: int) -> int {
    if j < p {
        j
    } else {
        j + 1
    }
}

/// Every thread of `before` is found in `after`, shifted past the place `p`
/// where a node went in, and wakes up at the same time as before.
pub open spec fn keeps_wake_times<T>(
    before: Seq<DeltaQueueNode<T>>,
    after: Seq<DeltaQueueNode<T>>,
    p: int,
) -> bool {
    forall|j: int|
        0 <= j < before.len() ==> {
            &&& #[trigger] after[shifted_index(j, p)].thread == before[j].thread
            &&& prefix_time(after, shifted_index(j, p) + 1) == prefix_time(before, j + 1)
        }
}

proof fn lemma_prefix_agree<T>(a: Seq<DeltaQueueNode<T>>, b: Seq<DeltaQueueNode<T>>, k: int)
    requires
        0 <= k <= a.len(),
        k <= b.len(),
        forall|i: int| 0 <= i < k ==> #[trigger] a[i].time == b[i].time,
    ensures
        prefix_time(a, k) == prefix_time(b, k),
    decreases k,
{
    if k > 0 {
        lemma_prefix_agree(a, b, k - 1);
    }
}

proof fn lemma_later_wake_times<T>(
    nodes: Seq<DeltaQueueNode<T>>,
    after: Seq<DeltaQueueNode<T>>,
    p: int,
    time: int,
    j: int,
)
    requires
        0 <= p <= j < nodes.len(),
        after.len() == nodes.len() + 1,
        prefix_time(after, p + 1) == time,
        after[p + 1].time == nodes[p].time - (time - prefix_time(nodes, p)),
        forall|i: int| p < i < nodes.len() ==> #[trigger] after[i + 1] == nodes[i],
    ensures
        prefix_time(after, j + 2) == prefix_time(nodes, j + 1),
    decreases j - p,
{
    if j > p {
        lemma_later_wake_times(nodes, after, p, time, j - 1);
        assert(after[j + 1] == nodes[j]);
    }
}

impl<T> DeltaQueue<T> {
    /// Creates an empty delta queue.
    pub fn new() -> (r: DeltaQueue<T>)
        ensures
            r.nodes@.len() == 0,
    {
        DeltaQueue { nodes: Vec::new() }
    }

    /// Inserts the given thread into the delta queue, to wake up `time` ms
    /// from now.
    ///
    /// The thread goes before the first node that wakes up after it; its node
    /// holds the time it waits after the node before it, and the node behind
    /// it waits that much less, so that every thread already in the queue
    /// keeps the time at which it wakes up.
    pub fn insert(&mut self, thread: T, time: usize)
        ensures
            final(self).nodes@ == inserted_nodes(old(self).nodes@, thread, time as int),
            ({
                let p = insert_position(old(self).nodes@, time as int, 0);
                &&& final(self).nodes@[p].thread == thread
                &&& prefix_time(final(self).nodes@, p + 1) == time
                &&& keeps_wake_times(old(self).nodes@, final(self).nodes@, p)
            }),
    {
        let ghost nodes = self.nodes@;
        proof {
            lemma_insert_position_range(nodes, time as int, 0);
        }
        let n = self.nodes.len();
        let mut remaining: usize = time;
        let mut i: usize = 0;
        while i < n && remaining >= self.nodes[i].time
            invariant
                n == self.nodes@.len(),
                self.nodes@ == nodes,
                0 <= i <= n,
                i <= insert_position(nodes, time as int, 0),
                remaining == time - prefix_time(nodes, i as int),
                forall|j: int| 0 < j <= insert_position(nodes, time as int, 0) ==> #[trigger] prefix_time(nodes, j) <= time,
                insert_position(nodes, time as int, 0) <= n,
                insert_position(nodes, time as int, 0) < n ==> time < prefix_time(
                    nodes,
                    insert_position(nodes, time as int, 0) + 1,
                ),
            decreases n - i,
        {
            remaining = remaining - self.nodes[i].time;
            i = i + 1;
        }
        proof {
            if i < n {
                assert(time < prefix_time(nodes, i + 1));
                if i < insert_position(nodes, time as int, 0) {
                    assert(prefix_time(nodes, i + 1) <= time);
                }
            }
        }
        assert(i == insert_position(nodes, time as int, 0));
        let ghost p = i as int;
        if i < n {
            let behind = self.nodes.remove(i);
            let shortened = DeltaQueueNode::new(behind.thread, behind.time - remaining);
            self.nodes.insert(i, shortened);
        }
        let ghost adjusted = self.nodes@;
        let node = DeltaQueueNode::new(thread, remaining);
        self.nodes.insert(i, node);
        proof {
            let after = self.nodes@;
            assert(adjusted =~= (if p < nodes.len() {
                nodes.update(
                    p,
                    DeltaQueueNode { thread: nodes[p].thread, time: (nodes[p].time - remaining) as usize },
                )
            } else {
                nodes
            }));
            assert(after =~= inserted_nodes(nodes, thread, time as int));
            assert forall|k: int| 0 <= k < p implies #[trigger] after[k].time == nodes[k].time by {
                assert(after[k] == nodes[k]);
            }
            lemma_prefix_agree(after, nodes, p);
            assert(after[p] == node);
            assert(prefix_time(after, p + 1) == time);
            assert forall|j: int| 0 <= j < nodes.len() implies {
                &&& #[trigger] after[shifted_index(j, p)].thread == nodes[j].thread
                &&& prefix_time(after, shifted_index(j, p) + 1) == prefix_time(nodes, j + 1)
            } by {
                if j < p {
                    assert(after[j] == nodes[j]);
                    lemma_prefix_agree(after, nodes, j + 1);
                } else {
                    assert forall|k: int| p < k < nodes.len() implies #[trigger] after[k + 1] == nodes[k] by {}
                    lemma_later_wake_times(nodes, after, p, time as int, j);
                }
            }
            assert(keeps_wake_times(nodes, after, p));
        }
    }
}

} // verus!
