use std::cmp::Ordering;
use std::collections::BTreeMap;
use veos::address_space::AddressSpace;
use veos::delta_queue::DeltaQueue;
use veos::process::{create_process, find_pid, PCB};
use veos::scheduler::{
    check_sleeping_processes, idle_action, IdleAction, ReadyList, Scheduler, SleepingList, ThreadState, TCB,
};
use veos::memory::VirtualAddress;
use veos::time::{Duration, Timestamp};

fn at(secs: u64) -> Timestamp {
    Timestamp::from_duration(Duration::from_secs(secs))
}

fn thread(id: u16, priority: i32) -> TCB {
    TCB { id, pid: 1, state: ThreadState::Ready, priority, start_address: 0x1000 }
}

fn sleeping(id: u16, wake: u64) -> TCB {
    TCB { id, pid: 1, state: ThreadState::Sleeping(at(wake)), priority: 1, start_address: 0x1000 }
}

#[test]
fn ready_list_pops_highest_priority() {
    let mut ready = ReadyList::new();
    ready.push(thread(1, 1));
    ready.push(thread(2, 5));
    ready.push(thread(3, 3));
    assert_eq!(ready.peek().unwrap().id, 2);
    assert_eq!(ready.pop().unwrap().id, 2);
    assert_eq!(ready.pop().unwrap().id, 3);
    assert_eq!(ready.pop().unwrap().id, 1);
    assert!(ready.pop().is_none());
}

#[test]
fn sleeping_threads_wake_when_due() {
    let mut ready = ReadyList::new();
    let mut sleepers = SleepingList::new();
    sleepers.push(sleeping(1, 10));
    sleepers.push(sleeping(2, 5));
    sleepers.push(sleeping(3, 20));
    check_sleeping_processes(&mut ready, &mut sleepers, at(10));
    assert_eq!(ready.len(), 2);
    assert_eq!(sleepers.threads.len(), 1);
    assert_eq!(sleepers.threads[0].id, 3);
    assert_eq!(sleepers.peek_wake_time(), Some(at(20)));
}

#[test]
fn scheduler_switches_to_higher_priority() {
    let mut current = thread(1, 1);
    current.set_running();
    let mut scheduler = Scheduler::new(current);
    scheduler.ready_list.push(thread(2, 5));
    let mut sleepers = SleepingList::new();
    assert!(scheduler.schedule_next_thread(&mut sleepers, at(0)));
    assert_eq!(scheduler.current_thread.id, 2);
    assert_eq!(scheduler.current_thread.state, ThreadState::Running);
    let old = scheduler.old_thread.unwrap();
    assert_eq!(old.id, 1);
    assert_eq!(old.state, ThreadState::Ready);
    let quantum = scheduler.after_context_switch(&mut sleepers);
    assert_eq!(quantum, Duration::from_millis(150));
    assert!(scheduler.old_thread.is_none());
    assert_eq!(scheduler.ready_list.peek().unwrap().id, 1);
}

#[test]
fn scheduler_keeps_higher_priority_current_thread() {
    let mut current = thread(1, 10);
    current.set_running();
    let mut scheduler = Scheduler::new(current);
    scheduler.ready_list.push(thread(2, 5));
    let mut sleepers = SleepingList::new();
    assert!(!scheduler.schedule_next_thread(&mut sleepers, at(0)));
    assert_eq!(scheduler.current_thread.id, 1);
    assert!(scheduler.old_thread.is_none());
}

#[test]
fn sleeping_current_thread_goes_to_sleeping_list() {
    let mut current = thread(1, 10);
    current.state = ThreadState::Sleeping(at(50));
    let mut scheduler = Scheduler::new(current);
    scheduler.ready_list.push(TCB::idle_tcb(0));
    let mut sleepers = SleepingList::new();
    assert!(scheduler.schedule_next_thread(&mut sleepers, at(0)));
    assert_eq!(scheduler.current_thread.pid, 0);
    scheduler.after_context_switch(&mut sleepers);
    assert_eq!(sleepers.threads.len(), 1);
    assert_eq!(sleepers.threads[0].id, 1);
}

#[test]
fn dead_current_thread_is_dropped() {
    let mut current = thread(1, 10);
    current.kill();
    assert!(current.is_dead());
    let mut scheduler = Scheduler::new(current);
    scheduler.ready_list.push(thread(2, 1));
    let mut sleepers = SleepingList::new();
    assert!(scheduler.schedule_next_thread(&mut sleepers, at(0)));
    scheduler.after_context_switch(&mut sleepers);
    assert_eq!(scheduler.ready_list.len(), 0);
    assert_eq!(sleepers.threads.len(), 0);
}

#[test]
fn idle_waits_for_first_sleeper() {
    let mut sleepers = SleepingList::new();
    assert_eq!(idle_action(&sleepers, at(3)), IdleAction::Halt);
    sleepers.push(sleeping(1, 10));
    assert_eq!(idle_action(&sleepers, at(3)), IdleAction::InterruptIn(Duration::from_secs(7)));
    assert_eq!(idle_action(&sleepers, at(11)), IdleAction::Schedule);
}

#[test]
fn delta_queue_inserts_by_wake_time() {
    let mut queue: DeltaQueue<u32> = DeltaQueue::new();
    queue.insert(1, 10);
    queue.insert(2, 30);
    queue.insert(3, 15);
    let times: Vec<(u32, usize)> = queue.nodes.iter().map(|n| (n.thread, n.time)).collect();
    // The third thread goes between the others and waits 5 after the first;
    // the last one still wakes up at 30.
    assert_eq!(times, vec![(1, 10), (3, 5), (2, 15)]);
    queue.insert(4, 3);
    let times: Vec<(u32, usize)> = queue.nodes.iter().map(|n| (n.thread, n.time)).collect();
    assert_eq!(times, vec![(4, 3), (1, 7), (3, 5), (2, 15)]);
}

#[test]
fn delta_queue_insert_keeps_wake_times() {
    let mut queue: DeltaQueue<u32> = DeltaQueue::new();
    queue.insert(1, 10);
    queue.insert(2, 5);
    // The first thread still wakes up at 10.
    let times: Vec<(u32, usize)> = queue.nodes.iter().map(|n| (n.thread, n.time)).collect();
    assert_eq!(times, vec![(2, 5), (1, 5)]);
    queue.insert(3, 10);
    queue.insert(4, 40);
    let times: Vec<(u32, usize)> = queue.nodes.iter().map(|n| (n.thread, n.time)).collect();
    assert_eq!(times, vec![(2, 5), (1, 5), (3, 0), (4, 30)]);
}

#[test]
fn find_pid_takes_smallest_free() {
    let mut list: BTreeMap<usize, u8> = BTreeMap::new();
    assert_eq!(find_pid(&list), 1);
    list.insert(0, 0);
    list.insert(1, 0);
    list.insert(3, 0);
    assert_eq!(find_pid(&list), 2);
}

#[test]
fn create_process_registers_pcb_and_thread() {
    let mut list: BTreeMap<usize, PCB> = BTreeMap::new();
    let mut ready = ReadyList::new();
    let first = create_process(&mut list, &mut ready, AddressSpace::new(), VirtualAddress(0x400000));
    let second = create_process(&mut list, &mut ready, AddressSpace::new(), VirtualAddress(0x400000));
    assert_eq!(first, 1);
    assert_eq!(second, 2);
    assert!(list.contains_key(&1) && list.contains_key(&2));
    assert_eq!(ready.len(), 2);
    let t = ready.pop().unwrap();
    assert_eq!(t.id, 0);
    assert_eq!(t.priority, 1);
    assert_eq!(t.state, ThreadState::Ready);
    // the first thread starts at the program's entry address
    assert_eq!(t.start_address, 0x400000);
}

#[test]
fn timestamps_offset_and_subtract() {
    let t = at(5);
    let later = t.offset(Duration::new(1, 1_500_000_000)).unwrap();
    assert_eq!(later, Timestamp::from_duration(Duration::new(7, 500_000_000)));
    assert_eq!(later.checked_sub(t), Some(Duration::new(2, 500_000_000)));
    assert_eq!(t.checked_sub(later), None);
    assert_eq!(later.sub(t).as_secs(), 2);
    assert_eq!(later.sub(t).subsec_nanos(), 500_000_000);
    assert!(Timestamp::from_duration(Duration::from_secs(u64::MAX)).offset(Duration::from_secs(1)).is_none());
}

#[test]
fn timestamps_order_as_their_durations() {
    assert!(at(5) < at(6));
    let a = Timestamp::from_duration(Duration::new(5, 10));
    let b = Timestamp::from_duration(Duration::new(5, 9));
    assert!(a > b);
    assert_eq!(a.partial_cmp(&a), Some(Ordering::Equal));
    assert_eq!(b.partial_cmp(&a), Some(Ordering::Less));
    assert_eq!(a.sub(b), Duration::new(0, 1));
}
