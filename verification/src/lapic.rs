//! The register values that configure the Local Advanced Programmable
//! Interrupt Controller (LAPIC).
//!
//! The architecture code writes these values to the memory mapped LAPIC.

use vstd::prelude::*;
use crate::kernel_map::PageMapping;
use crate::memory::{PageFlags, PhysicalAddress, VirtualAddress, KERNEL_OFFSET, NO_CACHE, READABLE, WRITABLE};
use crate::paging::{convert_flags, spec_convert_flags};

verus! {

/// The physical base address of the memory mapped LAPIC.
pub const LAPIC_BASE: u64 = 0xfee00000;

/// The offset for the CMCI interrupt LVT register.
pub const CMCI_INTERRUPT: u64 = 0x2f0;

/// The offset for the timer interrupt LVT register.
pub const TIMER_INTERRUPT: u64 = 0x320;

/// The offset for the thermal sensor interrupt LVT register.
pub const THERMAL_SENSOR_INTERRUPT: u64 = 0x330;

/// The offset for the performance counter interrupt LVT register.
pub const PERFORMANCE_COUNTER_INTERRUPT: u64 = 0x340;

/// The offset for the local interrupt 0 LVT register.
pub const LINT0_INTERRUPT: u64 = 0x350;

/// The offset for the local interrupt 1 LVT register.
pub const LINT1_INTERRUPT: u64 = 0x360;

/// The offset for the error interrupt LVT register.
pub const ERROR_INTERRUPT: u64 = 0x370;

/// The offset for the spurious interrupt register.
pub const SPURIOUS_INTERRUPT: u64 = 0xf0;

/// The offset for the timer initial count register.
pub const TIMER_INITIAL_COUNT: u64 = 0x380;

/// The offset for the timer current count register.
pub const TIMER_CURRENT_COUNT: u64 = 0x390;

/// The offset for the task priority register.
pub const TASK_PRIORITY_REGISTER: u64 = 0x80;

/// The offset for the interrupt command register (bits 0-31).
pub const INTERRUPT_COMMAND_REGISTER_LOW: u64 = 0x300;

/// The offset for the interrupt command register (bits 32-63).
pub const INTERRUPT_COMMAND_REGISTER_HIGH: u64 = 0x310;

/// The offset for the end of interrupt register.
pub const END_OF_INTERRUPT: u64 = 0xb0;

/// The offset of the logical destination register.
pub const LOGICAL_DESTINATION_REGISTER: u64 = 0xd0;

/// The offset of the destination format register.
pub const DESTINATION_FORMAT_REGISTER: u64 = 0xe0;

/// The vector for the LAPIC timer interrupt.
pub const TIMER_INTERRUPT_HANDLER_NUM: u8 = 0x30;

/// The handler number for the spurious interrupt.
pub const SPURIOUS_INTERRUPT_HANDLER_NUM: u8 = 0x2f;

/// The number of LAPIC timer ticks per millisecond before calibration: the
/// value qemu uses.
pub const DEFAULT_TICKS_PER_MS: u32 = 1000000;

/// The time the timer calibration measures, in milliseconds.
pub const MEASURE_ACCURACY_IN_MS: u64 = 125;

/// The frequency of the RTC interrupts used for the calibration, in hertz.
pub const RTC_FREQUENCY: u64 = 1024;

/// The interrupt vector of an LVT register.
pub const VECTOR: u32 = 0xff;

/// The delivery mode of the interrupt.
pub const DELIVERY_MODE: u32 = 0x700;

/// Delivers the interrupt to the specified vector.
pub const FIXED_DELIVERY_MODE: u32 = 0;

/// Delivers an SMI interrupt.
pub const SMI_DELIVERY_MODE: u32 = 0x200;

/// Delivers an NMI interrupt.
pub const NMI_DELIVERY_MODE: u32 = 0x400;

/// For external interrupts.
pub const EXTINT_DELIVERY_MODE: u32 = 0x700;

/// Delivers an INIT request.
pub const INIT_DELIVERY_MODE: u32 = 0x500;

/// Specifies the trigger mode for the interrupt.
pub const TRIGGER_MODE: u32 = 0x8000;

/// For edge sensitive interrupts.
pub const EDGE_SENSITIVE: u32 = 0;

/// For level sensitive interrupts.
pub const LEVEL_SENSITIVE: u32 = 0x8000;

/// Masks the interrupt.
pub const MASK: u32 = 0x10000;

/// Sets the mode for the timer.
pub const TIMER_MODE: u32 = 0x60000;

/// Sets the timer as a one shot timer.
pub const ONE_SHOT_TIMER_MODE: u32 = 0;

/// Sets the timer to be periodic.
pub const PERIODIC_TIMER_MODE: u32 = 0x20000;

/// Sets the timer to a deadline timer.
pub const DEADLINE_TIMER_MODE: u32 = 0x40000;

/// The destination address for the interrupt is logical.
pub const LOGICAL: u64 = 0x800;

/// The destination address for the interrupt is physical.
pub const PHYSICAL: u64 = 0;

/// The interrupt addresses only the current CPU.
pub const SELF: u64 = 0x40000;

/// The interrupt addresses all CPUs.
pub const ALL: u64 = 0x80000;

/// The interrupt addresses all but the current CPU.
pub const ALL_EXCLUDING_SELF: u64 = 0xc0000;

/// Represents a register belonging to the local vector table.
#[derive(Clone, Copy, Debug, PartialEq, Eq, Structural)]
pub struct LVTRegister(pub u32);

impl LVTRegister {
    /// Creates a new LVT register: active, with fixed delivery.
    pub fn new() -> (r: LVTRegister)
        ensures
            r.0 == 0,
    {
        let mut register = LVTRegister(0);
        register.set_active();
        register.set_delivery_mode(FIXED_DELIVERY_MODE);
        assert(0u32 & !MASK == 0 && (0u32 & !DELIVERY_MODE) | FIXED_DELIVERY_MODE == 0) by (bit_vector);
        register
    }

    /// Sets the vector of this interrupt.
    pub fn set_vector(&mut self, num: u8)
        ensures
            final(self).0 == (old(self).0 & !VECTOR) | num as u32,
            final(self).0 & VECTOR == num,
            final(self).0 & !VECTOR == old(self).0 & !VECTOR,
    {
        let old_value = self.0;
        self.0 = (self.0 & !VECTOR) | num as u32;
        let n = num as u32;
        assert(((old_value & !VECTOR) | n) & VECTOR == n && ((old_value & !VECTOR) | n) & !VECTOR == old_value
            & !VECTOR) by (bit_vector)
            requires
                n < 256,
        ;
    }

    /// Sets the delivery mode for this interrupt.
    pub fn set_delivery_mode(&mut self, mode: u32)
        ensures
            final(self).0 == (old(self).0 & !DELIVERY_MODE) | mode,
    {
        self.0 = (self.0 & !DELIVERY_MODE) | mode;
    }

    /// Sets the trigger mode for this interrupt.
    pub fn set_trigger_mode(&mut self, mode: u32)
        ensures
            final(self).0 == (old(self).0 & !TRIGGER_MODE) | mode,
    {
        self.0 = (self.0 & !TRIGGER_MODE) | mode;
    }

    /// Deactivates this interrupt.
    pub fn set_inactive(&mut self)
        ensures
            final(self).0 == old(self).0 | MASK,
    {
        self.0 = self.0 | MASK;
    }

    /// Activates this interrupt.
    pub fn set_active(&mut self)
        ensures
            final(self).0 == old(self).0 & !MASK,
    {
        self.0 = self.0 & !MASK;
    }

    /// Sets the timer mode for this interrupt.
    pub fn set_timer_mode(&mut self, timer_mode: u32)
        ensures
            final(self).0 == (old(self).0 & !TIMER_MODE) | timer_mode,
    {
        self.0 = (self.0 & !TIMER_MODE) | timer_mode;
    }
}

/// Setting a field of an LVT register to one of its values puts that value
/// in the field and leaves the other bits as they were.
pub proof fn lemma_field_set(old_value: u32, field: u32, value: u32)
    requires
        value & !field == 0,
    ensures
        ((old_value & !field) | value) & field == value,
        ((old_value & !field) | value) & !field == old_value & !field,
{
    assert(((old_value & !field) | value) & field == value && ((old_value & !field) | value) & !field == old_value
        & !field) by (bit_vector)
        requires
            value & !field == 0,
    ;
}

/// Returns the base address for the LAPIC of this CPU.
pub fn get_lapic_base() -> (r: VirtualAddress)
    ensures
        r.0 == LAPIC_BASE + KERNEL_OFFSET,
{
    PhysicalAddress::from_const(LAPIC_BASE).to_virtual()
}

/// Returns the address of the LAPIC register at the given offset.
pub fn register_address(offset: u64) -> (r: VirtualAddress)
    requires
        offset < 0x1000,
    ensures
        r.0 == LAPIC_BASE + KERNEL_OFFSET + offset,
{
    let base = get_lapic_base();
    VirtualAddress(base.0 + offset)
}

/// A write of a value to a LAPIC register.
#[derive(Clone, Copy, Debug, PartialEq, Eq, Structural)]
pub struct RegisterWrite {
    /// The offset of the register.
    pub offset: u64,
    /// The value written.
    pub value: u32,
}

/// The register writes that initialize the LAPIC of the CPU with the given
/// initial APIC ID.
pub open spec fn spec_init_writes(cpu_id: u8) -> Seq<RegisterWrite> {
    let inactive = MASK;
    let lint0 = EXTINT_DELIVERY_MODE | LEVEL_SENSITIVE;
    let lint1 = NMI_DELIVERY_MODE | EDGE_SENSITIVE;
    let timer = PERIODIC_TIMER_MODE | TIMER_INTERRUPT_HANDLER_NUM as u32;
    seq![
        RegisterWrite { offset: CMCI_INTERRUPT, value: inactive },
        RegisterWrite { offset: THERMAL_SENSOR_INTERRUPT, value: inactive },
        RegisterWrite { offset: PERFORMANCE_COUNTER_INTERRUPT, value: inactive },
        RegisterWrite { offset: ERROR_INTERRUPT, value: inactive },
        RegisterWrite { offset: LINT0_INTERRUPT, value: lint0 },
        RegisterWrite { offset: LINT1_INTERRUPT, value: lint1 },
        RegisterWrite { offset: TIMER_INTERRUPT, value: timer },
        RegisterWrite { offset: TIMER_INITIAL_COUNT, value: 0 },
        RegisterWrite { offset: SPURIOUS_INTERRUPT, value: (0x100 + SPURIOUS_INTERRUPT_HANDLER_NUM) as u32 },
        RegisterWrite { offset: LINT0_INTERRUPT, value: lint0 },
        RegisterWrite { offset: LINT1_INTERRUPT, value: lint1 },
        RegisterWrite { offset: DESTINATION_FORMAT_REGISTER, value: 0xf000_0000 },
        RegisterWrite { offset: LOGICAL_DESTINATION_REGISTER, value: ((cpu_id % 8) * 0x100_0000) as u32 },
    ]
}

/// The initialization of the LAPIC writes, in order: the masked entry
/// (only the mask bit 0x10000) to the CMCI, thermal sensor, performance
/// counter and error LVT registers; external interrupts, level triggered, to
/// LINT0; NMIs, edge triggered, to LINT1; the periodic timer on vector 0x30
/// to the timer register; 0 to the timer's initial count; the spurious
/// vector 0x2f with the software enable bit 0x100 to the spurious interrupt
/// register; LINT0 and LINT1 again; the flat model to the destination
/// format register; and the logical ID, the APIC ID modulo 8, in the top
/// byte of the logical destination register.
pub proof fn lemma_init_writes_values(cpu_id: u8)
    ensures
        spec_init_writes(cpu_id) == seq![
            RegisterWrite { offset: 0x2f0, value: 0x10000 },
            RegisterWrite { offset: 0x330, value: 0x10000 },
            RegisterWrite { offset: 0x340, value: 0x10000 },
            RegisterWrite { offset: 0x370, value: 0x10000 },
            RegisterWrite { offset: 0x350, value: 0x8700 },
            RegisterWrite { offset: 0x360, value: 0x400 },
            RegisterWrite { offset: 0x320, value: 0x20030 },
            RegisterWrite { offset: 0x380, value: 0 },
            RegisterWrite { offset: 0xf0, value: 0x12f },
            RegisterWrite { offset: 0x350, value: 0x8700 },
            RegisterWrite { offset: 0x360, value: 0x400 },
            RegisterWrite { offset: 0xe0, value: 0xf000_0000 },
            RegisterWrite { offset: 0xd0, value: ((cpu_id % 8) * 0x100_0000) as u32 },
        ],
        spec_init_writes(cpu_id)[8].offset == SPURIOUS_INTERRUPT,
        spec_init_writes(cpu_id)[8].value & 0x100 == 0x100,
        spec_init_writes(cpu_id)[8].value & 0xff == SPURIOUS_INTERRUPT_HANDLER_NUM,
{
    assert(0x700u32 | 0x8000u32 == 0x8700u32 && 0x400u32 | 0u32 == 0x400u32 && 0x20000u32 | 0x30u32
        == 0x20030u32) by (bit_vector);
    assert(0x12fu32 & 0x100u32 == 0x100u32 && 0x12fu32 & 0xffu32 == 0x2fu32) by (bit_vector);
    assert(spec_init_writes(cpu_id) =~= seq![
            RegisterWrite { offset: 0x2f0, value: 0x10000 },
            RegisterWrite { offset: 0x330, value: 0x10000 },
            RegisterWrite { offset: 0x340, value: 0x10000 },
            RegisterWrite { offset: 0x370, value: 0x10000 },
            RegisterWrite { offset: 0x350, value: 0x8700 },
            RegisterWrite { offset: 0x360, value: 0x400 },
            RegisterWrite { offset: 0x320, value: 0x20030 },
            RegisterWrite { offset: 0x380, value: 0 },
            RegisterWrite { offset: 0xf0, value: 0x12f },
            RegisterWrite { offset: 0x350, value: 0x8700 },
            RegisterWrite { offset: 0x360, value: 0x400 },
            RegisterWrite { offset: 0xe0, value: 0xf000_0000 },
            RegisterWrite { offset: 0xd0, value: ((cpu_id % 8) * 0x100_0000) as u32 },
        ]);
}

/// Returns the register writes that initialize the LAPIC of the CPU with
/// the given initial APIC ID, in order: the unused interrupts are masked,
/// the local interrupts set up, the periodic timer interrupt set up but
/// stopped, the LAPIC enabled and the CPU given its flat logical
/// destination.
pub fn init_writes(cpu_id: u8) -> (r: Vec<RegisterWrite>)
    ensures
        r@ == spec_init_writes(cpu_id),
        r@[8] == (RegisterWrite { offset: 0xf0, value: 0x12f }),
{
    proof {
        lemma_init_writes_values(cpu_id);
    }
    let logical_id = cpu_id % 8;

    let mut inactive_register = LVTRegister::new();
    inactive_register.set_inactive();

    let mut lint0_register = LVTRegister::new();
    lint0_register.set_delivery_mode(EXTINT_DELIVERY_MODE);
    lint0_register.set_trigger_mode(LEVEL_SENSITIVE);

    let mut lint1_register = LVTRegister::new();
    lint1_register.set_delivery_mode(NMI_DELIVERY_MODE);
    lint1_register.set_trigger_mode(EDGE_SENSITIVE);

    let mut timer_register = LVTRegister::new();
    timer_register.set_timer_mode(PERIODIC_TIMER_MODE);
    timer_register.set_vector(TIMER_INTERRUPT_HANDLER_NUM);

    assert(0u32 | MASK == MASK) by (bit_vector);
    assert(((0u32 & !DELIVERY_MODE) | EXTINT_DELIVERY_MODE) & !TRIGGER_MODE | LEVEL_SENSITIVE
        == EXTINT_DELIVERY_MODE | LEVEL_SENSITIVE) by (bit_vector);
    assert(((0u32 & !DELIVERY_MODE) | NMI_DELIVERY_MODE) & !TRIGGER_MODE | EDGE_SENSITIVE == NMI_DELIVERY_MODE
        | EDGE_SENSITIVE) by (bit_vector);
    assert(((0u32 & !TIMER_MODE) | PERIODIC_TIMER_MODE) & !VECTOR | 0x30u32 == PERIODIC_TIMER_MODE | 0x30u32)
        by (bit_vector);
    let logical: u32 = logical_id as u32;
    assert(logical << 24u32 == logical * 0x100_0000) by (bit_vector)
        requires
            logical < 8,
    ;
    assert(0b1111u32 << 28u32 == 0xf000_0000u32) by (bit_vector);

    let mut writes: Vec<RegisterWrite> = Vec::new();
    writes.push(RegisterWrite { offset: CMCI_INTERRUPT, value: inactive_register.0 });
    writes.push(RegisterWrite { offset: THERMAL_SENSOR_INTERRUPT, value: inactive_register.0 });
    writes.push(RegisterWrite { offset: PERFORMANCE_COUNTER_INTERRUPT, value: inactive_register.0 });
    writes.push(RegisterWrite { offset: ERROR_INTERRUPT, value: inactive_register.0 });
    writes.push(RegisterWrite { offset: LINT0_INTERRUPT, value: lint0_register.0 });
    writes.push(RegisterWrite { offset: LINT1_INTERRUPT, value: lint1_register.0 });
    writes.push(RegisterWrite { offset: TIMER_INTERRUPT, value: timer_register.0 });
    writes.push(RegisterWrite { offset: TIMER_INITIAL_COUNT, value: 0 });
    writes.push(RegisterWrite { offset: SPURIOUS_INTERRUPT, value: 0x100 + SPURIOUS_INTERRUPT_HANDLER_NUM as u32 });
    writes.push(RegisterWrite { offset: LINT0_INTERRUPT, value: lint0_register.0 });
    writes.push(RegisterWrite { offset: LINT1_INTERRUPT, value: lint1_register.0 });
    writes.push(RegisterWrite { offset: DESTINATION_FORMAT_REGISTER, value: 0b1111u32 << 28u32 });
    writes.push(RegisterWrite { offset: LOGICAL_DESTINATION_REGISTER, value: logical << 24u32 });
    assert(writes@ =~= spec_init_writes(cpu_id));
    writes
}

/// The mapping of the LAPIC's registers: the page at the LAPIC base plus
/// the kernel offset, on the frame at the LAPIC base, readable, writable
/// and uncached.
pub open spec fn spec_lapic_mapping() -> PageMapping {
    PageMapping {
        page: (LAPIC_BASE + KERNEL_OFFSET) as u64,
        frame: LAPIC_BASE,
        flags: spec_convert_flags(PageFlags { bits: READABLE | WRITABLE | NO_CACHE }),
    }
}

/// Returns the mapping that makes the LAPIC's registers reachable.
pub fn lapic_mapping() -> (r: PageMapping)
    ensures
        r == spec_lapic_mapping(),
{
    let flags = convert_flags(PageFlags { bits: READABLE | WRITABLE | NO_CACHE });
    PageMapping { page: LAPIC_BASE + KERNEL_OFFSET, frame: LAPIC_BASE, flags: flags.bits }
}

/// Initializes the LAPIC of the CPU with the given initial APIC ID: returns
/// the mapping of its page, to be entered first, and then the register
/// writes, in order.
///
/// The LAPIC is initialized once only: `initialized` must be false, and is
/// true afterwards.
pub fn init(initialized: &mut bool, cpu_id: u8) -> (r: (PageMapping, Vec<RegisterWrite>))
    requires
        !*old(initialized),
    ensures
        *final(initialized),
        r.0 == spec_lapic_mapping(),
        r.1@ == spec_init_writes(cpu_id),
{
    *initialized = true;
    (lapic_mapping(), init_writes(cpu_id))
}

/// Returns the initial count of the timer for a period of `delay`
/// milliseconds.
pub fn periodic_timer_count(delay: u32, ticks_per_ms: u32) -> (r: u32)
    requires
        delay * ticks_per_ms <= u32::MAX,
    ensures
        r == delay * ticks_per_ms,
{
    delay * ticks_per_ms
}

/// Returns the RTC tick at which the timer calibration that starts at
/// `start_tick` ends: after `MEASURE_ACCURACY_IN_MS` milliseconds.
pub fn calibration_end_tick(start_tick: u64) -> (r: u64)
    requires
        start_tick + RTC_FREQUENCY * MEASURE_ACCURACY_IN_MS / 1000 <= u64::MAX,
    ensures
        r == start_tick + RTC_FREQUENCY * MEASURE_ACCURACY_IN_MS / 1000,
{
    start_tick + RTC_FREQUENCY * MEASURE_ACCURACY_IN_MS / 1000
}

/// Returns the number of timer ticks per millisecond, given the current
/// count of a timer that started at the largest count and ran for the
/// calibration time.
pub fn ticks_per_ms(current_count: u32) -> (r: u32)
    ensures
        r == (u32::MAX - current_count) / MEASURE_ACCURACY_IN_MS as int,
{
    let timer_ticks_passed = u32::MAX - current_count;
    timer_ticks_passed / MEASURE_ACCURACY_IN_MS as u32
}

/// Returns the value of the task priority register as a priority.
pub fn priority_from_register(value: u32) -> (r: u8)
    ensures
        r == value % 256,
{
    assert(value as u8 == value % 256) by (bit_vector);
    value as u8
}

/// Returns the two halves of an interrupt command: the high half, then the
/// low half.
pub fn icr_halves(value: u64) -> (r: (u32, u32))
    ensures
        r.0 == value / 0x1_0000_0000,
        r.1 == value % 0x1_0000_0000,
{
    let value_low = value as u32;
    let value_high = (value >> 32u64) as u32;
    assert(value as u32 == value % 0x1_0000_0000 && (value >> 32u64) as u32 == value / 0x1_0000_0000)
        by (bit_vector);
    (value_high, value_low)
}

/// The writes that set the interrupt command register to the given value:
/// the high half first, then the low half, whose write sends the
/// interrupt.
pub open spec fn spec_icr_writes(value: u64) -> Seq<RegisterWrite> {
    seq![
        RegisterWrite { offset: INTERRUPT_COMMAND_REGISTER_HIGH, value: (value / 0x1_0000_0000) as u32 },
        RegisterWrite { offset: INTERRUPT_COMMAND_REGISTER_LOW, value: (value % 0x1_0000_0000) as u32 },
    ]
}

/// Returns the writes that set the interrupt command register to the given
/// value: the high half first, then the low half. They are made with
/// interrupts disabled, so that nothing comes between them.
pub fn set_icr(value: u64) -> (r: Vec<RegisterWrite>)
    ensures
        r@ == spec_icr_writes(value),
{
    let (high, low) = icr_halves(value);
    let mut writes: Vec<RegisterWrite> = Vec::new();
    writes.push(RegisterWrite { offset: INTERRUPT_COMMAND_REGISTER_HIGH, value: high });
    writes.push(RegisterWrite { offset: INTERRUPT_COMMAND_REGISTER_LOW, value: low });
    assert(writes@ =~= spec_icr_writes(value));
    writes
}

/// Returns the interrupt command that issues the interrupt with the given
/// vector to the given targets.
pub fn interrupt_command(target: u64, vector: u8) -> (r: u64)
    requires
        target & (SELF | ALL | ALL_EXCLUDING_SELF) != 0,
    ensures
        r == target | vector as u64,
{
    target | vector as u64
}

/// Returns the register writes that issue the interrupt with the given
/// vector to the given targets.
pub fn issue_interrupt(target: u64, vector: u8) -> (r: Vec<RegisterWrite>)
    requires
        target & (SELF | ALL | ALL_EXCLUDING_SELF) != 0,
    ensures
        r@ == spec_icr_writes(target | vector as u64),
{
    set_icr(interrupt_command(target, vector))
}

/// Returns the register writes that issue the interrupt with the given
/// vector to the current CPU: 0 to the high half of the interrupt command
/// register, then the vector with the self destination to the low half.
pub fn issue_self_interrupt(vector: u8) -> (r: Vec<RegisterWrite>)
    ensures
        r@ == seq![
            RegisterWrite { offset: INTERRUPT_COMMAND_REGISTER_HIGH, value: 0 },
            RegisterWrite { offset: INTERRUPT_COMMAND_REGISTER_LOW, value: (SELF | vector as u64) as u32 },
        ],
{
    assert(SELF & (SELF | ALL | ALL_EXCLUDING_SELF) != 0) by (bit_vector);
    let v = vector as u64;
    assert((0x40000u64 | v) / 0x1_0000_0000 == 0 && (0x40000u64 | v) % 0x1_0000_0000 == (0x40000u64 | v))
        by (bit_vector)
        requires
            v < 256,
    ;
    issue_interrupt(SELF, vector)
}

} // verus!
