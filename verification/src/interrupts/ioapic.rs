//! I/O APIC: the redirection table that routes hardware IRQs to vectors.
//!
//! A register is written by selecting its number and writing the data window.
use vstd::prelude::*;

verus! {

/// Offset of the register select port.
pub const IOREGSEL: u32 = 0x00;

/// Offset of the data window.
pub const IOWIN: u32 = 0x10;

/// Register: ID.
pub const IOAPICID: u32 = 0x00;

/// Register: version and number of redirection entries.
pub const IOAPICVER: u32 = 0x01;

/// First register of the redirection table. An entry has two.
pub const REDTBL_BASE: u32 = 0x10;

/// Mask bit of a redirection entry.
pub const REDTBL_MASK: u32 = 0x1_0000;

/// A register and the value to write to it.
#[derive(Debug, Clone, Copy, PartialEq, Eq, Structural)]
pub struct RegisterWrite {
    pub reg: u32,
    pub value: u32,
}

/// The lower register of an entry.
pub open spec fn entry_register(irq: u16) -> int {
    0x10 + 2 * irq
}

pub fn redirection_register(irq: u16) -> (r: u32)
    ensures
        r == entry_register(irq),
{
    REDTBL_BASE + irq as u32 * 2
}

/// The number of redirection entries and the version that the version register gives.
pub fn capabilities(version: u32) -> (r: (u16, u8))
    ensures
        r.0 == version / 0x1_0000 % 0x100 + 1,
        r.1 == version % 0x100,
{
    ((version / 0x1_0000 % 0x100) as u16 + 1, (version % 0x100) as u8)
}

/// Set the redirection table entry for a hardware IRQ: fixed delivery, active high, edge
/// triggered and not masked, to one CPU.
pub fn set_irq(irq: u16, vector: u8, destination_apic_id: u8) -> (r: [RegisterWrite; 2])
    ensures
        r@ == seq![
            RegisterWrite { reg: entry_register(irq) as u32, value: vector as u32 },
            RegisterWrite {
                reg: (entry_register(irq) + 1) as u32,
                value: (destination_apic_id * 0x100_0000) as u32,
            },
        ],
        r@[0].value as int % 256 == vector && r@[0].value < 256,
        r@[1].value as int / 16777216 == destination_apic_id && r@[1].value as int % 16777216 == 0,
        r@[1].reg == r@[0].reg + 1,
{
    let low: u32 = redirection_register(irq);
    let r: [RegisterWrite; 2] = [
        RegisterWrite { reg: low, value: vector as u32 },
        RegisterWrite { reg: low + 1, value: destination_apic_id as u32 * 0x100_0000 },
    ];
    assert(r@ =~= seq![
        RegisterWrite { reg: entry_register(irq) as u32, value: vector as u32 },
        RegisterWrite {
            reg: (entry_register(irq) + 1) as u32,
            value: (destination_apic_id * 0x100_0000) as u32,
        },
    ]);
    r
}

/// Mask (disable) a hardware IRQ: what to write, given what its entry holds.
pub fn mask_irq(irq: u16, current: u32) -> (r: RegisterWrite)
    ensures
        r.reg == entry_register(irq),
        r.value == current | REDTBL_MASK,
{
    RegisterWrite { reg: redirection_register(irq), value: current | REDTBL_MASK }
}

/// Unmask (enable) a hardware IRQ: what to write, given what its entry holds.
pub fn unmask_irq(irq: u16, current: u32) -> (r: RegisterWrite)
    ensures
        r.reg == entry_register(irq),
        r.value == current & !REDTBL_MASK,
{
    RegisterWrite { reg: redirection_register(irq), value: current & !REDTBL_MASK }
}

/// Unmasking undoes masking of an entry that was not masked, and the other way round;
/// both keep the vector.
pub proof fn law_mask_unmask(value: u32)
    ensures
        value & REDTBL_MASK == 0 ==> (value | REDTBL_MASK) & !REDTBL_MASK == value,
        value & REDTBL_MASK != 0 ==> (value & !REDTBL_MASK) | REDTBL_MASK == value,
        (value | REDTBL_MASK) & 0xFF == value & 0xFF,
        (value & !REDTBL_MASK) & 0xFF == value & 0xFF,
{
    assert(value & 0x1_0000u32 == 0 ==> (value | 0x1_0000u32) & !0x1_0000u32 == value)
        by (bit_vector);
    assert(value & 0x1_0000u32 != 0 ==> (value & !0x1_0000u32) | 0x1_0000u32 == value)
        by (bit_vector);
    assert((value | 0x1_0000u32) & 0xFF == value & 0xFF && (value & !0x1_0000u32) & 0xFF == value
        & 0xFF) by (bit_vector);
}

} // verus!
