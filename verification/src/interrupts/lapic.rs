//! Local APIC: the per-CPU interrupt controller and its timer.
use vstd::prelude::*;

use crate::interrupts::ioapic::RegisterWrite;

verus! {

/// Register: ID.
pub const LAPIC_ID: u32 = 0x020;

/// Register: task priority.
pub const LAPIC_TPR: u32 = 0x080;

/// Register: end of interrupt.
pub const LAPIC_EOI: u32 = 0x0B0;

/// Register: spurious interrupt vector.
pub const LAPIC_SVR: u32 = 0x0F0;

/// Register: timer entry of the local vector table.
pub const LAPIC_LVT_TIMER: u32 = 0x320;

/// Register: initial count of the timer.
pub const LAPIC_INIT_COUNT: u32 = 0x380;

/// Register: current count of the timer.
pub const LAPIC_CURRENT_COUNT: u32 = 0x390;

/// Register: divider of the timer.
pub const LAPIC_DIVIDE_CONFIG: u32 = 0x3E0;

/// Spurious interrupt vector number.
pub const SPURIOUS_VECTOR: u8 = 39;

/// Vector of the timer interrupt.
pub const TIMER_VECTOR: u8 = 32;

/// Software enable bit of the spurious interrupt vector register.
pub const SVR_ENABLE: u32 = 0x100;

/// Periodic mode of the timer.
pub const LVT_TIMER_PERIODIC: u32 = 0x2_0000;

/// Mask bit of the timer.
pub const LVT_TIMER_MASK: u32 = 0x1_0000;

/// Initial count of the timer for about 100 interrupts per second.
pub const TIMER_COUNT: u32 = 746;

/// Initialize the local APIC: accept all interrupts, enable it, and run the timer
/// periodically. The registers to write, in order.
pub fn init() -> (r: [RegisterWrite; 5])
    ensures
        r@ == seq![
            RegisterWrite { reg: LAPIC_TPR, value: 0 },
            RegisterWrite { reg: LAPIC_SVR, value: 0x127 },
            RegisterWrite { reg: LAPIC_DIVIDE_CONFIG, value: 3 },
            RegisterWrite { reg: LAPIC_LVT_TIMER, value: 0x2_0020 },
            RegisterWrite { reg: LAPIC_INIT_COUNT, value: 746 },
        ],
{
    let r: [RegisterWrite; 5] = [
        RegisterWrite { reg: LAPIC_TPR, value: 0 },
        RegisterWrite { reg: LAPIC_SVR, value: SVR_ENABLE + SPURIOUS_VECTOR as u32 },
        RegisterWrite { reg: LAPIC_DIVIDE_CONFIG, value: 0x03 },
        RegisterWrite { reg: LAPIC_LVT_TIMER, value: TIMER_VECTOR as u32 + LVT_TIMER_PERIODIC },
        RegisterWrite { reg: LAPIC_INIT_COUNT, value: TIMER_COUNT },
    ];
    assert(r@ =~= seq![
        RegisterWrite { reg: LAPIC_TPR, value: 0 },
        RegisterWrite { reg: LAPIC_SVR, value: 0x127 },
        RegisterWrite { reg: LAPIC_DIVIDE_CONFIG, value: 3 },
        RegisterWrite { reg: LAPIC_LVT_TIMER, value: 0x2_0020 },
        RegisterWrite { reg: LAPIC_INIT_COUNT, value: 746 },
    ]);
    r
}

/// The write that ends an interrupt.
pub fn send_eoi() -> (r: RegisterWrite)
    ensures
        r == (RegisterWrite { reg: LAPIC_EOI, value: 0 }),
{
    RegisterWrite { reg: LAPIC_EOI, value: 0 }
}

/// Mask (disable) the timer: what to write, given what its entry holds.
pub fn mask_lapic_timer(current: u32) -> (r: RegisterWrite)
    ensures
        r == (RegisterWrite { reg: LAPIC_LVT_TIMER, value: current | LVT_TIMER_MASK }),
{
    RegisterWrite { reg: LAPIC_LVT_TIMER, value: current | LVT_TIMER_MASK }
}

} // verus!
