//! Decisions on the processor: whether it can run the kernel, and the timer
//! delay for a span.

use vstd::prelude::*;
use crate::time::Duration;

verus! {

/// Decides whether the processor can run the kernel: it needs a local APIC,
/// the `syscall` and `sysret` instructions and the execute disable bit.
///
/// `apic` is the APIC feature bit, if the basic feature information is
/// available; `extended` the `syscall` and execute disable bits, if the
/// extended function information is.
pub fn cpu_supported(apic: Option<bool>, extended: Option<(bool, bool)>) -> (r: bool)
    ensures
        r == (apic == Some(true) && extended == Some((true, true))),
{
    let mut supported = true;
    match apic {
        Some(has_apic) => {
            supported = supported && has_apic;
        },
        None => {
            supported = false;
        },
    }
    match extended {
        Some((has_syscall_sysret, has_execute_disable)) => {
            supported = supported && has_syscall_sysret;
            supported = supported && has_execute_disable;
        },
        None => {
            supported = false;
        },
    }
    supported
}

/// The timer delay in milliseconds for a span: its whole milliseconds,
/// with the seconds part clamped as the timer register does.
pub open spec fn spec_timer_millis(duration: Duration) -> u32 {
    let second_part = if duration.secs * 1000 > u64::MAX { u64::MAX } else { (duration.secs * 1000) as u64 };
    let truncated = (second_part % 0x1_0000_0000) as u32;
    let sum = duration.nanos / 1_000_000 + truncated;
    if sum > u32::MAX { u32::MAX } else { sum as u32 }
}

/// Returns the timer delay in milliseconds for the span: the milliseconds
/// beyond the seconds plus the seconds in milliseconds, cut to 32 bits,
/// saturating.
pub fn timer_millis(duration: Duration) -> (r: u32)
    requires
        duration.valid(),
    ensures
        r == spec_timer_millis(duration),
{
    let sleep_duration: u32 = duration.subsec_nanos() / 1_000_000;
    let secs = duration.as_secs();
    let second_part: u64 = if secs > u64::MAX / 1000 { u64::MAX } else { secs * 1000 };
    assert(second_part as u32 == second_part % 0x1_0000_0000) by (bit_vector);
    sleep_duration.saturating_add(second_part as u32)
}

/// The bit of the EFER register that enables `syscall` and `sysret`.
pub const EFER_SYSCALL_ENABLE: u64 = 1;

/// The bit of the EFER register that enables the execute disable bit in
/// page table entries.
pub const EFER_NO_EXECUTE_ENABLE: u64 = 0x800;

/// Returns the value of the EFER register with `syscall`/`sysret` and the
/// execute disable bit enabled.
pub fn efer_value(efer: u64) -> (r: u64)
    ensures
        r == efer | EFER_NO_EXECUTE_ENABLE | EFER_SYSCALL_ENABLE,
{
    efer | EFER_NO_EXECUTE_ENABLE | EFER_SYSCALL_ENABLE
}

/// Returns the value of the STAR register: the code segment `sysret`
/// returns to in bits 48 to 63, the one `syscall` enters in bits 32 to 47.
pub fn star_value(sysret_cs: u16, syscall_cs: u16) -> (r: u64)
    ensures
        r == sysret_cs * 0x1_0000_0000_0000 + syscall_cs * 0x1_0000_0000,
{
    let sysret: u64 = sysret_cs as u64;
    let syscall: u64 = syscall_cs as u64;
    assert((sysret << 48u64) | (syscall << 32u64) == sysret * 0x1_0000_0000_0000 + syscall * 0x1_0000_0000)
        by (bit_vector)
        requires
            sysret < 0x10000,
            syscall < 0x10000,
    ;
    (sysret << 48u64) | (syscall << 32u64)
}

} // verus!
