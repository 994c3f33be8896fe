//! Decoding of system calls and the decisions they take.
//!
//! The architecture code hands the raw call number and arguments over and
//! carries out the request it gets back.

use vstd::prelude::*;
use crate::address_space::AddressSpace;
use crate::scheduler::{ThreadState, TCB};
use crate::memory::{MemoryArea, VirtualAddress};
use crate::initramfs::str_from_utf8;
use crate::time::{Duration, Timestamp, NANOS_PER_SEC};
use vstd::utf8::valid_utf8;
use vstd::string::StringSliceAdditionalSpecFns;

verus! {

/// A system call, decoded from its number and arguments.
#[derive(Clone, Copy, Debug, PartialEq, Eq, Structural)]
pub enum Syscall {
    /// Print the character.
    PrintChar(u8),
    /// Kill the current process.
    KillProcess,
    /// Return the ID of the current process.
    ReturnPid,
    /// Start the program whose name lies at the address, with the length.
    Exec { name_ptr: u64, name_length: u64 },
    /// Let the current thread sleep for the seconds and nanoseconds.
    Sleep { seconds: u64, nanoseconds: u32 },
    /// Create a thread at the start address with the arguments.
    CreateThread { start_address: u64, arg1: u64, arg2: u64, arg3: u64, arg4: u64, arg5: u64 },
    /// Kill the current thread.
    KillThread,
    /// A call with an unknown number.
    Unknown(u16),
}

/// The system call with the given number and arguments.
pub open spec fn spec_decode(num: u16, arg1: u64, arg2: u64, arg3: u64, arg4: u64, arg5: u64, arg6: u64) -> Syscall {
    match num {
        0 => Syscall::PrintChar(arg1 as u8),
        1 => Syscall::KillProcess,
        2 => Syscall::ReturnPid,
        3 => Syscall::Exec { name_ptr: arg1, name_length: arg2 },
        4 => Syscall::Sleep { seconds: arg1, nanoseconds: arg2 as u32 },
        5 => Syscall::CreateThread { start_address: arg1, arg1: arg2, arg2: arg3, arg3: arg4, arg4: arg5, arg5: arg6 },
        6 => Syscall::KillThread,
        _ => Syscall::Unknown(num),
    }
}

/// The numbers of the system calls: 0 prints the character in the low byte
/// of the first argument, 1 kills the process, 2 returns the process ID, 3
/// starts a program whose name has the address and length in the first two
/// arguments, 4 sleeps for the seconds and nanoseconds in the first two, 5
/// creates a thread at the first argument with the other five as its
/// arguments, 6 kills the thread; every other number is unknown.
pub proof fn lemma_syscall_numbers(num: u16, a1: u64, a2: u64, a3: u64, a4: u64, a5: u64, a6: u64)
    ensures
        spec_decode(0, a1, a2, a3, a4, a5, a6) == Syscall::PrintChar((a1 % 256) as u8),
        spec_decode(1, a1, a2, a3, a4, a5, a6) == Syscall::KillProcess,
        spec_decode(2, a1, a2, a3, a4, a5, a6) == Syscall::ReturnPid,
        spec_decode(3, a1, a2, a3, a4, a5, a6) == (Syscall::Exec { name_ptr: a1, name_length: a2 }),
        spec_decode(4, a1, a2, a3, a4, a5, a6) == (Syscall::Sleep {
            seconds: a1,
            nanoseconds: (a2 % 0x1_0000_0000) as u32,
        }),
        spec_decode(5, a1, a2, a3, a4, a5, a6) == (Syscall::CreateThread {
            start_address: a1,
            arg1: a2,
            arg2: a3,
            arg3: a4,
            arg4: a5,
            arg5: a6,
        }),
        spec_decode(6, a1, a2, a3, a4, a5, a6) == Syscall::KillThread,
        num > 6 ==> spec_decode(num, a1, a2, a3, a4, a5, a6) == Syscall::Unknown(num),
{
    assert(a1 as u8 == a1 % 256) by (bit_vector);
    assert(a2 as u32 == a2 % 0x1_0000_0000) by (bit_vector);
}

/// Decodes a system call from its number and arguments.
pub fn syscall_handler(num: u16, arg1: u64, arg2: u64, arg3: u64, arg4: u64, arg5: u64, arg6: u64) -> (r: Syscall)
    ensures
        r == spec_decode(num, arg1, arg2, arg3, arg4, arg5, arg6),
        r == match num {
            0 => Syscall::PrintChar(arg1 as u8),
            1 => Syscall::KillProcess,
            2 => Syscall::ReturnPid,
            3 => Syscall::Exec { name_ptr: arg1, name_length: arg2 },
            4 => Syscall::Sleep { seconds: arg1, nanoseconds: arg2 as u32 },
            5 => Syscall::CreateThread { start_address: arg1, arg1: arg2, arg2: arg3, arg3: arg4, arg4: arg5, arg5: arg6 },
            6 => Syscall::KillThread,
            _ => Syscall::Unknown(num),
        },
{
    match num {
        0 => Syscall::PrintChar(arg1 as u8),
        1 => Syscall::KillProcess,
        2 => Syscall::ReturnPid,
        3 => Syscall::Exec { name_ptr: arg1, name_length: arg2 },
        4 => Syscall::Sleep { seconds: arg1, nanoseconds: arg2 as u32 },
        5 => Syscall::CreateThread { start_address: arg1, arg1: arg2, arg2: arg3, arg3: arg4, arg4: arg5, arg5: arg6 },
        6 => Syscall::KillThread,
        _ => Syscall::Unknown(num),
    }
}

/// Returns the time at which a thread that sleeps from `now` for the given
/// seconds and nanoseconds wakes up, or `None` if that time does not fit,
/// in which case the process is killed.
pub fn sleep_wake_time(seconds: u64, nanoseconds: u32, now: Timestamp) -> (r: Option<Timestamp>)
    requires
        now.valid(),
    ensures
        seconds + nanoseconds / NANOS_PER_SEC > u64::MAX ==> r is None,
        seconds + nanoseconds / NANOS_PER_SEC <= u64::MAX ==> {
            let total = now.nanos() + seconds * NANOS_PER_SEC + nanoseconds;
            &&& r is None <==> total >= (u64::MAX + 1) * NANOS_PER_SEC
            &&& r matches Some(t) ==> t.valid() && t.nanos() == total
        },
{
    let carry: u64 = (nanoseconds / NANOS_PER_SEC) as u64;
    match seconds.checked_add(carry) {
        None => None,
        Some(_) => {
            let duration = Duration::new(seconds, nanoseconds);
            now.offset(duration)
        },
    }
}

/// Checks that the name handed to `exec` lies within one segment of the
/// address space of the calling process.
pub fn exec_name_valid(address_space: &AddressSpace, name_ptr: u64, name_length: u64) -> (r: bool)
    requires
        address_space.wf(),
        name_ptr + name_length <= u64::MAX,
    ensures
        r == exists|j: int| 0 <= j < address_space.segments@.len() && #[trigger] address_space.segments@[j].memory_area.start()
            <= name_ptr && name_ptr + name_length <= address_space.segments@[j].memory_area.end(),
{
    address_space.contains_area(MemoryArea::new(VirtualAddress(name_ptr), name_length))
}

/// The value `exec` returns: the new process ID, or -1 if the name was
/// invalid or no process could be created.
pub fn exec_result(pid: Option<usize>) -> (r: i64)
    requires
        pid matches Some(p) ==> 0 < p <= i64::MAX,
    ensures
        r == match pid {
            Some(p) => p as int,
            None => -1int,
        },
{
    match pid {
        Some(p) => p as i64,
        None => -1,
    }
}

/// Reads the name handed to `exec`, given by its bytes: the name as a string
/// slice, or `None` if the bytes are not valid UTF-8, in which case `exec`
/// fails.
pub fn exec_name(name: &[u8]) -> (r: Option<&str>)
    ensures
        r is Some <==> valid_utf8(name@),
        r matches Some(s) ==> s.spec_bytes() == name@,
{
    str_from_utf8(name)
}

/// What the kernel does next for a system call of the current thread.
#[derive(Clone, Copy, Debug, PartialEq, Eq, Structural)]
pub enum SyscallAction {
    /// Print the character and return 0.
    Print(u8),
    /// Return the value to the calling thread.
    Return(i64),
    /// Read the name with the given address and length out of the calling
    /// process, start the program of that name and return its process ID,
    /// or -1 if that fails.
    Exec { name_ptr: u64, name_length: u64 },
    /// Kill the current process at once and pick the next thread.
    KillProcess,
    /// The current thread stopped running (it sleeps or is dead): pick the
    /// next thread, and return 0 once the thread runs again.
    Schedule,
}

/// Where a system call's name argument is acceptable: it fits in the
/// address space and lies within one segment of the calling process.
pub open spec fn exec_name_acceptable(address_space: AddressSpace, name_ptr: u64, name_length: u64) -> bool {
    &&& name_ptr + name_length <= u64::MAX
    &&& exists|j: int|
        0 <= j < address_space.segments@.len() && #[trigger] address_space.segments@[j].memory_area.start()
            <= name_ptr && name_ptr + name_length <= address_space.segments@[j].memory_area.end()
}

/// Decides what a system call of the current thread does: given the
/// current thread, the time, the address space of its process and the call's
/// number and arguments, returns the current thread as it is afterwards and
/// the action to take.
///
/// An unknown call kills the process, as does a sleep whose wake time does
/// not fit. A thread cannot be created: no thread ID is available for it,
/// so the call returns -1.
pub fn syscall_step(
    current: TCB,
    now: Timestamp,
    address_space: &AddressSpace,
    num: u16,
    arg1: u64,
    arg2: u64,
    arg3: u64,
    arg4: u64,
    arg5: u64,
    arg6: u64,
) -> (r: (TCB, SyscallAction))
    requires
        now.valid(),
        address_space.wf(),
    ensures
        match spec_decode(num, arg1, arg2, arg3, arg4, arg5, arg6) {
            Syscall::PrintChar(c) => r == (current, SyscallAction::Print(c)),
            Syscall::KillProcess => r == (current, SyscallAction::KillProcess),
            Syscall::ReturnPid => r == (current, SyscallAction::Return(current.pid as i64)),
            Syscall::Exec { name_ptr, name_length } => if exec_name_acceptable(
                *address_space,
                name_ptr,
                name_length,
            ) {
                r == (current, SyscallAction::Exec { name_ptr, name_length })
            } else {
                r == (current, SyscallAction::Return(-1i64))
            },
            Syscall::Sleep { seconds, nanoseconds } => {
                let total = now.nanos() + seconds * NANOS_PER_SEC + nanoseconds;
                if seconds + nanoseconds / NANOS_PER_SEC > u64::MAX || total >= (u64::MAX + 1) * NANOS_PER_SEC {
                    r == (current, SyscallAction::KillProcess)
                } else {
                    &&& r.1 == SyscallAction::Schedule
                    &&& r.0.state matches ThreadState::Sleeping(t) && t.valid() && t.nanos() == total
                    &&& r.0 == (TCB { state: r.0.state, ..current })
                }
            },
            Syscall::CreateThread { .. } => r == (current, SyscallAction::Return(-1i64)),
            Syscall::KillThread => r == (TCB { state: ThreadState::Dead, ..current }, SyscallAction::Schedule),
            Syscall::Unknown(_) => r == (current, SyscallAction::KillProcess),
        },
{
    match syscall_handler(num, arg1, arg2, arg3, arg4, arg5, arg6) {
        Syscall::PrintChar(c) => (current, SyscallAction::Print(c)),
        Syscall::KillProcess => (current, SyscallAction::KillProcess),
        Syscall::ReturnPid => (current, SyscallAction::Return(current.pid as i64)),
        Syscall::Exec { name_ptr, name_length } => {
            if name_ptr <= u64::MAX - name_length && exec_name_valid(address_space, name_ptr, name_length) {
                (current, SyscallAction::Exec { name_ptr, name_length })
            } else {
                (current, SyscallAction::Return(-1))
            }
        },
        Syscall::Sleep { seconds, nanoseconds } => match sleep_wake_time(seconds, nanoseconds, now) {
            Some(wake_time) => {
                let mut thread = current;
                thread.state = ThreadState::Sleeping(wake_time);
                (thread, SyscallAction::Schedule)
            },
            None => (current, SyscallAction::KillProcess),
        },
        Syscall::CreateThread { .. } => (current, SyscallAction::Return(-1)),
        Syscall::KillThread => {
            let mut thread = current;
            thread.kill();
            (thread, SyscallAction::Schedule)
        },
        Syscall::Unknown(_) => (current, SyscallAction::KillProcess),
    }
}

} // verus!
