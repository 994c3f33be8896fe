//! Thread control blocks and the decisions of the scheduler.
//!
//! The ready list is a priority queue: the thread with the highest priority
//! runs next. The sleeping list is ordered by wake time: the thread that
//! wakes up first comes first.

use vstd::prelude::*;
use vstd::multiset::Multiset;
use crate::memory::VirtualAddress;
use crate::time::{Duration, Timestamp, NANOS_PER_MILLI};

verus! {

broadcast use vstd::seq_lib::group_to_multiset_ensures;

/// The type of a process ID.
pub type ProcessID = usize;

/// The type of a thread ID.
pub type ThreadID = u16;

/// Represents the possible states a thread can have.
#[derive(Clone, Copy, Debug, PartialEq, Eq, Structural)]
pub enum ThreadState {
    /// The thread is currently running.
    Running,
    /// The thread is ready to run.
    Ready,
    /// The thread is sleeping until the given time.
    Sleeping(Timestamp),
    /// The thread is dead.
    Dead,
}

/// What the scheduler knows of a thread: its IDs, state, priority and the
/// address it starts running at.
///
/// The stacks and the register context of a thread are kept by the
/// architecture code, under the thread's IDs.
#[derive(Clone, Copy, Debug)]
pub struct TCB {
    /// The thread ID within the process.
    pub id: ThreadID,
    /// The ID of the process that the thread belongs to.
    pub pid: ProcessID,
    /// The state of the thread.
    pub state: ThreadState,
    /// The priority of the thread.
    pub priority: i32,
    /// The address at which the thread starts running; 0 for an idle
    /// thread, which runs the kernel's idle loop.
    pub start_address: u64,
}

/// The quantum a thread runs for before the scheduler is asked again, in
/// milliseconds.
pub const QUANTUM_MILLIS: u64 = 150;

impl TCB {
    /// Creates a new thread in the given process, ready to run from the
    /// given address on.
    pub fn in_process(pid: ProcessID, id: ThreadID, pc: VirtualAddress) -> (r: TCB)
        ensures
            r.pid == pid,
            r.id == id,
            r.state == ThreadState::Ready,
            r.priority == 1,
            r.start_address == pc.0,
    {
        TCB { id, pid, state: ThreadState::Ready, priority: 1, start_address: pc.0 }
    }

    /// Creates the TCB of the idle thread of the given CPU: it belongs to
    /// process 0 and has the lowest priority.
    pub fn idle_tcb(cpu_id: ThreadID) -> (r: TCB)
        ensures
            r.pid == 0,
            r.id == cpu_id,
            r.state == ThreadState::Ready,
            r.priority == i32::MIN,
            r.start_address == 0,
    {
        TCB { id: cpu_id, pid: 0, state: ThreadState::Ready, priority: i32::MIN, start_address: 0 }
    }

    /// Returns true if the thread state is dead.
    pub fn is_dead(&self) -> (r: bool)
        ensures
            r == (self.state == ThreadState::Dead),
    {
        match self.state {
            ThreadState::Dead => true,
            _ => false,
        }
    }

    /// Returns true if the thread state is running.
    pub fn is_running(&self) -> (r: bool)
        ensures
            r == (self.state == ThreadState::Running),
    {
        match self.state {
            ThreadState::Running => true,
            _ => false,
        }
    }

    /// Sets the thread state to ready, unless the thread is dead.
    pub fn set_ready(&mut self)
        ensures
            final(self).id == old(self).id,
            final(self).pid == old(self).pid,
            final(self).priority == old(self).priority,
            final(self).start_address == old(self).start_address,
            final(self).state == if old(self).state == ThreadState::Dead {
                ThreadState::Dead
            } else {
                ThreadState::Ready
            },
    {
        if !self.is_dead() {
            self.state = ThreadState::Ready;
        }
    }

    /// Sets the state of a thread that is not dead to running.
    pub fn set_running(&mut self)
        requires
            old(self).state != ThreadState::Dead,
        ensures
            *final(self) == (TCB { state: ThreadState::Running, ..*old(self) }),
    {
        self.state = ThreadState::Running;
    }

    /// Marks this thread as dead, so that the scheduler drops it.
    pub fn kill(&mut self)
        ensures
            *final(self) == (TCB { state: ThreadState::Dead, ..*old(self) }),
    {
        self.state = ThreadState::Dead;
    }

    /// Returns the time quantum this thread should run.
    pub fn get_quantum(&self) -> (r: Duration)
        ensures
            r.valid(),
            r.total_nanos() == QUANTUM_MILLIS * NANOS_PER_MILLI,
    {
        Duration::from_millis(QUANTUM_MILLIS)
    }
}

/// The thread is sleeping until a valid timestamp.
pub open spec fn is_sleeping(t: TCB) -> bool {
    t.state is Sleeping && t.state->Sleeping_0.valid()
}

/// The time in nanoseconds at which a sleeping thread wakes up.
pub open spec fn wake_nanos(t: TCB) -> int {
    t.state->Sleeping_0.nanos()
}

/// A sleeping thread, ordered by its wake time.
pub struct SleepTimeSortedTCB(pub TCB);

impl SleepTimeSortedTCB {
    /// Returns the time at which this thread wakes up.
    pub fn get_wake_time(&self) -> (r: Timestamp)
        requires
            self.0.state is Sleeping,
        ensures
            self.0.state == ThreadState::Sleeping(r),
    {
        match self.0.state {
            ThreadState::Sleeping(time) => time,
            _ => Timestamp(Duration { secs: 0, nanos: 0 }),
        }
    }
}

/// The threads that are ready to run, the one with the highest priority
/// first.
pub struct ReadyList {
    /// The threads, in no particular order.
    pub threads: Vec<TCB>,
}

impl ReadyList {
    /// The threads in the list.
    pub open spec fn contents(&self) -> Multiset<TCB> {
        self.threads@.to_multiset()
    }

    /// Creates an empty list.
    pub fn new() -> (r: ReadyList)
        ensures
            r.contents() == Multiset::<TCB>::empty(),
    {
        let r = ReadyList { threads: Vec::new() };
        assert(r.contents() =~= Multiset::<TCB>::empty());
        r
    }

    /// Returns the number of threads in the list.
    pub fn len(&self) -> (r: usize)
        ensures
            r == self.contents().len(),
    {
        self.threads.len()
    }

    /// Adds a thread.
    pub fn push(&mut self, thread: TCB)
        ensures
            final(self).contents() == old(self).contents().insert(thread),
    {
        self.threads.push(thread);
    }

    /// The index of the first thread with the highest priority.
    fn max_index(&self) -> (r: Option<usize>)
        ensures
            r is None <==> self.threads@.len() == 0,
            r matches Some(i) ==> i < self.threads@.len() && forall|j: int|
                0 <= j < self.threads@.len() ==> #[trigger] self.threads@[j].priority
                    <= self.threads@[i as int].priority,
    {
        let n = self.threads.len();
        if n == 0 {
            return None;
        }
        let mut best: usize = 0;
        let mut i: usize = 1;
        while i < n
            invariant
                n == self.threads@.len(),
                0 <= best < i <= n,
                forall|j: int| 0 <= j < i ==> #[trigger] self.threads@[j].priority
                    <= self.threads@[best as int].priority,
            decreases n - i,
        {
            if self.threads[i].priority > self.threads[best].priority {
                best = i;
            }
            i = i + 1;
        }
        Some(best)
    }

    /// Returns a thread with the highest priority, if there is one.
    pub fn peek(&self) -> (r: Option<TCB>)
        ensures
            r is None <==> self.contents().len() == 0,
            r matches Some(t) ==> self.contents().count(t) > 0 && forall|u: TCB|
                #[trigger] self.contents().count(u) > 0 ==> u.priority <= t.priority,
    {
        match self.max_index() {
            None => None,
            Some(i) => {
                proof {
                    assert(self.threads@.contains(self.threads@[i as int]));
                    assert forall|u: TCB| #[trigger] self.contents().count(u) > 0 implies u.priority
                        <= self.threads@[i as int].priority by {
                        assert(self.threads@.contains(u));
                    }
                }
                Some(self.threads[i])
            },
        }
    }

    /// Removes and returns a thread with the highest priority, if there is
    /// one.
    pub fn pop(&mut self) -> (r: Option<TCB>)
        ensures
            r is None <==> old(self).contents().len() == 0,
            r is None ==> final(self).contents() == old(self).contents(),
            r matches Some(t) ==> {
                &&& old(self).contents().count(t) > 0
                &&& forall|u: TCB| #[trigger] old(self).contents().count(u) > 0 ==> u.priority <= t.priority
                &&& final(self).contents() == old(self).contents().remove(t)
            },
    {
        match self.max_index() {
            None => None,
            Some(i) => {
                proof {
                    assert(self.threads@.contains(self.threads@[i as int]));
                    assert forall|u: TCB| #[trigger] self.contents().count(u) > 0 implies u.priority
                        <= self.threads@[i as int].priority by {
                        assert(self.threads@.contains(u));
                    }
                }
                let t = self.threads.remove(i);
                Some(t)
            },
        }
    }
}

/// The threads that sleep, the one that wakes up first first.
pub struct SleepingList {
    /// The threads, in no particular order.
    pub threads: Vec<TCB>,
}

impl SleepingList {
    /// The threads in the list.
    pub open spec fn contents(&self) -> Multiset<TCB> {
        self.threads@.to_multiset()
    }

    /// Every thread in the list sleeps until a valid time.
    pub open spec fn wf(&self) -> bool {
        forall|i: int| 0 <= i < self.threads@.len() ==> is_sleeping(#[trigger] self.threads@[i])
    }

    /// Creates an empty list.
    pub fn new() -> (r: SleepingList)
        ensures
            r.wf(),
            r.contents() == Multiset::<TCB>::empty(),
    {
        let r = SleepingList { threads: Vec::new() };
        assert(r.contents() =~= Multiset::<TCB>::empty());
        r
    }

    /// Adds a sleeping thread.
    pub fn push(&mut self, thread: TCB)
        requires
            old(self).wf(),
            is_sleeping(thread),
        ensures
            final(self).wf(),
            final(self).contents() == old(self).contents().insert(thread),
    {
        self.threads.push(thread);
    }

    /// The index of the first thread that wakes up first.
    fn min_index(&self) -> (r: Option<usize>)
        requires
            self.wf(),
        ensures
            r is None <==> self.threads@.len() == 0,
            r matches Some(i) ==> i < self.threads@.len() && forall|j: int|
                0 <= j < self.threads@.len() ==> wake_nanos(self.threads@[i as int]) <= wake_nanos(
                    #[trigger] self.threads@[j],
                ),
    {
        let n = self.threads.len();
        if n == 0 {
            return None;
        }
        let mut best: usize = 0;
        let mut i: usize = 1;
        while i < n
            invariant
                n == self.threads@.len(),
                self.wf(),
                0 <= best < i <= n,
                forall|j: int| 0 <= j < i ==> wake_nanos(self.threads@[best as int]) <= wake_nanos(
                    #[trigger] self.threads@[j],
                ),
            decreases n - i,
        {
            let a = SleepTimeSortedTCB(self.threads[i]).get_wake_time();
            let b = SleepTimeSortedTCB(self.threads[best]).get_wake_time();
            assert(is_sleeping(self.threads@[i as int]));
            assert(is_sleeping(self.threads@[best as int]));
            if !b.is_not_after(&a) {
                best = i;
            }
            i = i + 1;
        }
        Some(best)
    }

    /// Returns the time at which the first thread wakes up, if there is a
    /// thread.
    pub fn peek_wake_time(&self) -> (r: Option<Timestamp>)
        requires
            self.wf(),
        ensures
            r is None <==> self.contents().len() == 0,
            r matches Some(w) ==> w.valid() && (exists|t: TCB| #[trigger] self.contents().count(t) > 0
                && wake_nanos(t) == w.nanos()) && forall|u: TCB| #[trigger] self.contents().count(u) > 0
                ==> w.nanos() <= wake_nanos(u),
    {
        match self.min_index() {
            None => None,
            Some(i) => {
                let t = self.threads[i];
                proof {
                    assert(is_sleeping(t));
                    assert(self.threads@.contains(t));
                    assert(self.contents().count(t) > 0);
                    assert forall|u: TCB| #[trigger] self.contents().count(u) > 0 implies wake_nanos(t)
                        <= wake_nanos(u) by {
                        assert(self.threads@.contains(u));
                    }
                }
                Some(SleepTimeSortedTCB(t).get_wake_time())
            },
        }
    }

    /// Removes and returns the thread that wakes up first, if there is one.
    pub fn pop(&mut self) -> (r: Option<TCB>)
        requires
            old(self).wf(),
        ensures
            final(self).wf(),
            r is None <==> old(self).contents().len() == 0,
            r is None ==> final(self).contents() == old(self).contents(),
            r matches Some(t) ==> {
                &&& is_sleeping(t)
                &&& final(self).threads@.len() == old(self).threads@.len() - 1
                &&& old(self).contents().count(t) > 0
                &&& forall|u: TCB| #[trigger] old(self).contents().count(u) > 0 ==> wake_nanos(t) <= wake_nanos(
                    u,
                )
                &&& final(self).contents() == old(self).contents().remove(t)
            },
    {
        match self.min_index() {
            None => None,
            Some(i) => {
                proof {
                    assert(self.threads@.contains(self.threads@[i as int]));
                    assert forall|u: TCB| #[trigger] self.contents().count(u) > 0 implies wake_nanos(
                        self.threads@[i as int],
                    ) <= wake_nanos(u) by {
                        assert(self.threads@.contains(u));
                    }
                }
                let ghost before = self.threads@;
                let t = self.threads.remove(i);
                proof {
                    assert(is_sleeping(before[i as int]));
                    assert forall|j: int| 0 <= j < self.threads@.len() implies is_sleeping(
                        #[trigger] self.threads@[j],
                    ) by {
                        if j < i {
                            assert(self.threads@[j] == before[j]);
                        } else {
                            assert(self.threads@[j] == before[j + 1]);
                        }
                    }
                }
                Some(t)
            },
        }
    }
}

/// The thread wakes up no later than the given time.
pub open spec fn wakes_by(t: TCB, now: Timestamp) -> bool {
    wake_nanos(t) <= now.nanos()
}

/// Moves every sleeping thread whose wake time has come to the ready list.
pub fn check_sleeping_processes(ready_list: &mut ReadyList, sleeping_list: &mut SleepingList, now: Timestamp)
    requires
        old(sleeping_list).wf(),
        now.valid(),
    ensures
        final(sleeping_list).wf(),
        final(sleeping_list).contents() == old(sleeping_list).contents().filter(|t: TCB| !wakes_by(t, now)),
        final(ready_list).contents() == old(ready_list).contents().add(
            old(sleeping_list).contents().filter(|t: TCB| wakes_by(t, now)),
        ),
{
    let ghost old_ready = ready_list.contents();
    let ghost old_sleeping = sleeping_list.contents();
    loop
        invariant
            sleeping_list.wf(),
            now.valid(),
            forall|t: TCB| #[trigger] ready_list.contents().count(t) + sleeping_list.contents().count(t)
                == old_ready.count(t) + old_sleeping.count(t),
            forall|t: TCB| !wakes_by(t, now) ==> #[trigger] sleeping_list.contents().count(t) == old_sleeping.count(t),
            forall|t: TCB| !wakes_by(t, now) ==> #[trigger] ready_list.contents().count(t) == old_ready.count(t),
            forall|t: TCB| #[trigger] sleeping_list.contents().count(t) <= old_sleeping.count(t),
            forall|t: TCB| old_ready.count(t) <= #[trigger] ready_list.contents().count(t),
        ensures
            sleeping_list.wf(),
            forall|t: TCB| #[trigger] ready_list.contents().count(t) + sleeping_list.contents().count(t)
                == old_ready.count(t) + old_sleeping.count(t),
            forall|t: TCB| !wakes_by(t, now) ==> #[trigger] sleeping_list.contents().count(t) == old_sleeping.count(t),
            forall|t: TCB| !wakes_by(t, now) ==> #[trigger] ready_list.contents().count(t) == old_ready.count(t),
            forall|t: TCB| wakes_by(t, now) ==> #[trigger] sleeping_list.contents().count(t) == 0,
        decreases sleeping_list.threads@.len(),
    {
        let wake_first = match sleeping_list.peek_wake_time() {
            Some(wake_time) => wake_time.is_not_after(&now),
            None => false,
        };
        if wake_first {
            let ghost before_s = sleeping_list.contents();
            let t = sleeping_list.pop().unwrap();
            ready_list.push(t);
        } else {
            proof {
                assert forall|t: TCB| wakes_by(t, now) implies #[trigger] sleeping_list.contents().count(t)
                    == 0 by {
                    if sleeping_list.contents().count(t) > 0 {
                        assert(sleeping_list.contents().len() > 0);
                    }
                }
            }
            break;
        }
    }
    assert(sleeping_list.contents() =~= old_sleeping.filter(|t: TCB| !wakes_by(t, now)));
    assert(ready_list.contents() =~= old_ready.add(old_sleeping.filter(|t: TCB| wakes_by(t, now))));
}

/// No thread in the multiset is dead.
pub open spec fn no_dead(m: Multiset<TCB>) -> bool {
    forall|t: TCB| #[trigger] m.count(t) > 0 ==> t.state != ThreadState::Dead
}

/// The ready threads after the sleeping threads whose time has come woke up.
pub open spec fn ready_after_wakeup(ready: Multiset<TCB>, sleeping: Multiset<TCB>, now: Timestamp) -> Multiset<
    TCB,
> {
    ready.add(sleeping.filter(|t: TCB| wakes_by(t, now)))
}

/// Scheduling is needed if another thread with at least the same priority
/// is ready, or if the current thread cannot run anymore.
pub open spec fn schedule_needed(ready: Multiset<TCB>, current: TCB) -> bool {
    ||| exists|t: TCB| #[trigger] ready.count(t) > 0 && t.priority >= current.priority
    ||| current.state != ThreadState::Running
}

/// The previous thread after a switch: ready if it was running.
pub open spec fn switched_out(t: TCB) -> TCB {
    if t.state == ThreadState::Running {
        TCB { state: ThreadState::Ready, ..t }
    } else {
        t
    }
}

/// The scheduling state of a CPU.
pub struct Scheduler {
    /// The threads ready to run on this CPU.
    pub ready_list: ReadyList,
    /// The thread currently running.
    pub current_thread: TCB,
    /// The previously running thread, during a context switch.
    pub old_thread: Option<TCB>,
}

/// Returns a thread that has been switched out to the queue its state
/// calls for.
pub fn return_old_thread_to_queue(thread: TCB, ready_list: &mut ReadyList, sleeping_list: &mut SleepingList)
    requires
        old(sleeping_list).wf(),
        thread.state == ThreadState::Ready || is_sleeping(thread),
    ensures
        final(sleeping_list).wf(),
        thread.state == ThreadState::Ready ==> final(ready_list).contents() == old(ready_list).contents().insert(
            thread,
        ) && final(sleeping_list).contents() == old(sleeping_list).contents(),
        thread.state is Sleeping ==> final(sleeping_list).contents() == old(sleeping_list).contents().insert(
            thread,
        ) && final(ready_list).contents() == old(ready_list).contents(),
{
    match thread.state {
        ThreadState::Ready => ready_list.push(thread),
        _ => sleeping_list.push(thread),
    }
}

impl Scheduler {
    /// Creates the scheduling state of a CPU whose idle thread runs.
    pub fn new(idle_thread: TCB) -> (r: Scheduler)
        ensures
            r.ready_list.contents() == Multiset::<TCB>::empty(),
            r.current_thread == idle_thread,
            r.old_thread is None,
    {
        Scheduler { ready_list: ReadyList::new(), current_thread: idle_thread, old_thread: None }
    }

    /// Wakes up the sleeping threads whose time has come and decides whether
    /// to switch threads.
    ///
    /// On a switch, a ready thread with the highest priority becomes the
    /// running current thread, and the previous thread waits in
    /// `old_thread`, ready if it was running, for the context switch.
    /// Returns true if threads are switched.
    pub fn schedule_next_thread(&mut self, sleeping_list: &mut SleepingList, now: Timestamp) -> (r: bool)
        requires
            old(self).old_thread is None,
            old(sleeping_list).wf(),
            now.valid(),
            no_dead(old(self).ready_list.contents()),
            old(self).current_thread.state == ThreadState::Running || ready_after_wakeup(
                old(self).ready_list.contents(),
                old(sleeping_list).contents(),
                now,
            ).len() > 0,
        ensures
            final(sleeping_list).wf(),
            final(sleeping_list).contents() == old(sleeping_list).contents().filter(|t: TCB| !wakes_by(t, now)),
            no_dead(final(self).ready_list.contents()),
            r == schedule_needed(
                ready_after_wakeup(old(self).ready_list.contents(), old(sleeping_list).contents(), now),
                old(self).current_thread,
            ),
            !r ==> {
                &&& final(self).ready_list.contents() == ready_after_wakeup(
                    old(self).ready_list.contents(),
                    old(sleeping_list).contents(),
                    now,
                )
                &&& final(self).current_thread == old(self).current_thread
                &&& final(self).old_thread is None
            },
            r ==> {
                let ready = ready_after_wakeup(old(self).ready_list.contents(), old(sleeping_list).contents(), now);
                &&& exists|p: TCB| #[trigger] ready.count(p) > 0 && (forall|u: TCB| #[trigger] ready.count(u) > 0
                    ==> u.priority <= p.priority) && final(self).current_thread == (TCB {
                    state: ThreadState::Running,
                    ..p
                }) && final(self).ready_list.contents() == ready.remove(p)
                &&& final(self).old_thread == Some(switched_out(old(self).current_thread))
            },
    {
        let ghost old_ready = self.ready_list.contents();
        check_sleeping_processes(&mut self.ready_list, sleeping_list, now);
        let ghost ready = self.ready_list.contents();
        assert(ready == ready_after_wakeup(old_ready, old(sleeping_list).contents(), now));
        assert(no_dead(ready)) by {
            assert forall|t: TCB| #[trigger] ready.count(t) > 0 implies t.state != ThreadState::Dead by {
                if old_ready.count(t) == 0 {
                    assert(old(sleeping_list).contents().count(t) > 0);
                    assert(old(sleeping_list).threads@.contains(t));
                }
            }
        }
        let higher_ready = match self.ready_list.peek() {
            Some(next) => next.priority >= self.current_thread.priority,
            None => false,
        };
        let needed = higher_ready || !self.current_thread.is_running() || self.current_thread.is_dead();
        if needed {
            let next = self.ready_list.pop().unwrap();
            let mut previous = self.current_thread;
            if previous.is_running() {
                previous.set_ready();
            }
            self.current_thread = next;
            self.current_thread.set_running();
            self.old_thread = Some(previous);
            proof {
                assert(no_dead(self.ready_list.contents())) by {
                    assert forall|t: TCB| #[trigger] self.ready_list.contents().count(t) > 0 implies t.state
                        != ThreadState::Dead by {
                        assert(ready.count(t) > 0);
                    }
                }
            }
        }
        needed
    }

    /// Finishes a context switch: returns the previous thread to its queue,
    /// or drops it if it is dead. Returns the time quantum for the current
    /// thread.
    pub fn after_context_switch(&mut self, sleeping_list: &mut SleepingList) -> (r: Duration)
        requires
            old(sleeping_list).wf(),
            old(self).old_thread matches Some(t) ==> t.state != ThreadState::Running && (t.state is Sleeping
                ==> is_sleeping(t)),
        ensures
            final(sleeping_list).wf(),
            final(self).old_thread is None,
            final(self).current_thread == old(self).current_thread,
            r.valid(),
            r.total_nanos() == QUANTUM_MILLIS * NANOS_PER_MILLI,
            old(self).old_thread is Some && old(self).old_thread->0.state == ThreadState::Ready ==> {
                &&& final(self).ready_list.contents() == old(self).ready_list.contents().insert(
                    old(self).old_thread->0,
                )
                &&& final(sleeping_list).contents() == old(sleeping_list).contents()
            },
            old(self).old_thread is Some && old(self).old_thread->0.state is Sleeping ==> {
                &&& final(sleeping_list).contents() == old(sleeping_list).contents().insert(
                    old(self).old_thread->0,
                )
                &&& final(self).ready_list.contents() == old(self).ready_list.contents()
            },
            old(self).old_thread is None || old(self).old_thread->0.state == ThreadState::Dead ==> {
                &&& final(self).ready_list.contents() == old(self).ready_list.contents()
                &&& final(sleeping_list).contents() == old(sleeping_list).contents()
            },
    {
        match self.old_thread.take() {
            Some(old_thread) => {
                if !old_thread.is_dead() {
                    return_old_thread_to_queue(old_thread, &mut self.ready_list, sleeping_list);
                }
            },
            None => {},
        }
        self.current_thread.get_quantum()
    }
}

/// No thread is lost or duplicated by a switch: after scheduling picked the
/// thread `next` and the context switch was completed, the ready and the
/// sleeping threads together with `next` are the threads that were ready or
/// sleeping before together with the previous thread, unless that thread
/// was dead and has been dropped.
pub proof fn lemma_switch_keeps_threads(
    ready: Multiset<TCB>,
    sleeping: Multiset<TCB>,
    current: TCB,
    now: Timestamp,
    next: TCB,
    ready_after: Multiset<TCB>,
    sleeping_after: Multiset<TCB>,
)
    requires
        ready_after_wakeup(ready, sleeping, now).count(next) > 0,
        ({
            let woken = ready_after_wakeup(ready, sleeping, now).remove(next);
            let rest = sleeping.filter(|t: TCB| !wakes_by(t, now));
            let previous = switched_out(current);
            &&& previous.state == ThreadState::Ready ==> ready_after == woken.insert(previous)
                && sleeping_after == rest
            &&& previous.state is Sleeping ==> sleeping_after == rest.insert(previous) && ready_after == woken
            &&& previous.state == ThreadState::Dead ==> ready_after == woken && sleeping_after == rest
        }),
    ensures
        ready_after.add(sleeping_after).insert(next) == if switched_out(current).state == ThreadState::Dead {
            ready.add(sleeping)
        } else {
            ready.add(sleeping).insert(switched_out(current))
        },
{
    let previous = switched_out(current);
    let due = |t: TCB| wakes_by(t, now);
    let not_due = |t: TCB| !wakes_by(t, now);
    assert forall|t: TCB| #[trigger] sleeping.filter(due).count(t) + sleeping.filter(not_due).count(t)
        == sleeping.count(t) by {}
    let goal = if previous.state == ThreadState::Dead {
        ready.add(sleeping)
    } else {
        ready.add(sleeping).insert(previous)
    };
    assert(ready_after.add(sleeping_after).insert(next) =~= goal);
}

/// What the idle thread does next.
#[derive(Clone, Copy, Debug, PartialEq, Eq, Structural)]
pub enum IdleAction {
    /// Ask for a timer interrupt after the span, then halt.
    InterruptIn(Duration),
    /// Call the scheduler, then halt.
    Schedule,
    /// Halt until the next interrupt.
    Halt,
}

/// Decides what the idle thread does: with a sleeping thread, it asks to be
/// interrupted when that thread wakes up, or calls the scheduler if that
/// time has passed.
pub fn idle_action(sleeping_list: &SleepingList, now: Timestamp) -> (r: IdleAction)
    requires
        sleeping_list.wf(),
        now.valid(),
    ensures
        sleeping_list.contents().len() == 0 <==> r == IdleAction::Halt,
        r matches IdleAction::InterruptIn(d) ==> d.valid() && forall|u: TCB| #[trigger] sleeping_list.contents().count(
            u,
        ) > 0 ==> now.nanos() + d.total_nanos() <= wake_nanos(u),
        r matches IdleAction::InterruptIn(d) ==> exists|t: TCB| #[trigger] sleeping_list.contents().count(t) > 0
            && wake_nanos(t) == now.nanos() + d.total_nanos(),
        r == IdleAction::Schedule ==> exists|t: TCB| #[trigger] sleeping_list.contents().count(t) > 0
            && wake_nanos(t) < now.nanos(),
{
    match sleeping_list.peek_wake_time() {
        Some(wake_time) => match wake_time.checked_sub(now) {
            Some(sleep_duration) => IdleAction::InterruptIn(sleep_duration),
            None => IdleAction::Schedule,
        },
        None => IdleAction::Halt,
    }
}

} // verus!
