//! Processes: their control blocks and the list of all processes.

use vstd::prelude::*;
use std::collections::BTreeMap;
use crate::address_space::AddressSpace;
use crate::memory::VirtualAddress;
use crate::scheduler::{ProcessID, ReadyList, TCB};

verus! {

broadcast use vstd::std_specs::btree::group_btree_axioms;

/// A process control block (PCB) holds all data required to manage a process.
pub struct PCB {
    /// The address space of the process.
    pub address_space: AddressSpace,
}

impl PCB {
    /// Creates a new PCB with the given parameters.
    pub fn new(address_space: AddressSpace) -> (r: PCB)
        ensures
            r.address_space == address_space,
    {
        PCB { address_space }
    }
}

/// A finite set that holds every number from 1 to `n` has at least `n`
/// elements.
proof fn lemma_holds_range(s: Set<usize>, n: int)
    requires
        s.finite(),
        0 <= n <= usize::MAX,
        forall|q: int| 1 <= q <= n ==> #[trigger] s.contains(q as usize),
    ensures
        s.len() >= n,
    decreases n,
{
    if n > 0 {
        let t = s.remove(n as usize);
        assert(s.contains(n as usize));
        assert forall|q: int| 1 <= q <= n - 1 implies #[trigger] t.contains(q as usize) by {
            assert(s.contains(q as usize));
        }
        lemma_holds_range(t, n - 1);
    }
}

/// Finds the smallest process ID from 1 on that is not in use.
pub fn find_pid<V>(list: &BTreeMap<ProcessID, V>) -> (r: ProcessID)
    requires
        list@.len() < usize::MAX,
    ensures
        r >= 1,
        !list@.contains_key(r),
        forall|q: ProcessID| 1 <= q < r ==> #[trigger] list@.contains_key(q),
{
    let mut pid: ProcessID = 1;
    while list.contains_key(&pid)
        invariant
            list@.len() < usize::MAX,
            1 <= pid,
            forall|q: ProcessID| 1 <= q < pid ==> #[trigger] list@.contains_key(q),
        decreases usize::MAX - pid,
    {
        proof {
            assert forall|q: int| 1 <= q <= pid implies #[trigger] list@.dom().contains(q as usize) by {
                if q < pid {
                    assert(list@.contains_key(q as usize));
                }
            }
            lemma_holds_range(list@.dom(), pid as int);
        }
        pid = pid + 1;
    }
    pid
}

/// Creates a new process with the given address space: it gets the smallest
/// unused process ID, and its first thread is ready to run from the entry
/// address on.
///
/// The stacks and register context of the first thread are set up by the
/// architecture code.
pub fn create_process(
    process_list: &mut BTreeMap<ProcessID, PCB>,
    ready_list: &mut ReadyList,
    address_space: AddressSpace,
    entry_address: VirtualAddress,
) -> (r: ProcessID)
    requires
        old(process_list)@.len() < usize::MAX,
    ensures
        r >= 1,
        !old(process_list)@.contains_key(r),
        forall|q: ProcessID| 1 <= q < r ==> #[trigger] old(process_list)@.contains_key(q),
        final(process_list)@ == old(process_list)@.insert(r, PCB { address_space }),
        final(ready_list).contents() == old(ready_list).contents().insert(
            TCB {
                id: 0,
                pid: r,
                state: crate::scheduler::ThreadState::Ready,
                priority: 1,
                start_address: entry_address.0,
            },
        ),
{
    let pcb = PCB::new(address_space);
    let id = find_pid(process_list);
    let first_tcb = TCB::in_process(id, 0, entry_address);
    ready_list.push(first_tcb);
    process_list.insert(id, pcb);
    id
}

} // verus!
