//! Hardware interrupts: how the interrupt controllers are set up.
use vstd::prelude::*;

use crate::acpi::madt::InterruptOverride;
use crate::interrupts::ioapic::RegisterWrite;

pub mod dispatch;
pub mod ioapic;
pub mod lapic;
pub mod pit;

verus! {

/// Where the local APIC is if ACPI does not say.
pub const DEFAULT_LAPIC: u64 = 0xFEE0_0000;

/// Where the I/O APIC is if ACPI does not say.
pub const DEFAULT_IOAPIC: u64 = 0xFEC0_0000;

/// The global interrupt of an ISA interrupt: its own number, unless one of the first `n`
/// overrides says otherwise. The last one counts.
pub open spec fn gsi_of(overrides: Seq<InterruptOverride>, irq: int, n: int) -> u32
    decreases n,
{
    if n <= 0 {
        irq as u32
    } else if overrides[n - 1].bus == 0 && overrides[n - 1].source == irq {
        overrides[n - 1].global
    } else {
        gsi_of(overrides, irq, n - 1)
    }
}

/// The global interrupts of the sixteen ISA interrupts.
pub fn gsi_table(overrides: &[InterruptOverride]) -> (r: [u32; 16])
    ensures
        forall|irq: int|
            0 <= irq < 16 ==> #[trigger] r@[irq] == gsi_of(
                overrides@,
                irq,
                overrides@.len() as int,
            ),
{
    let mut table: [u32; 16] = [0, 1, 2, 3, 4, 5, 6, 7, 8, 9, 10, 11, 12, 13, 14, 15];
    let mut i: usize = 0;
    while i < overrides.len()
        invariant
            i <= overrides@.len(),
            forall|irq: int|
                0 <= irq < 16 ==> #[trigger] table@[irq] == gsi_of(overrides@, irq, i as int),
        decreases overrides@.len() - i,
    {
        let o: InterruptOverride = overrides[i];
        assert(o == overrides@[i as int]);
        if o.bus == 0 && o.source < 16 {
            table[o.source as usize] = o.global;
        }
        i = i + 1;
    }
    table
}

/// How an ISA interrupt is routed: its global interrupt, and the entry of the I/O APIC.
#[derive(Debug, Clone, Copy, PartialEq, Eq, Structural)]
pub struct Route {
    pub gsi: u32,
    pub entry: u16,
}

/// The route of a global interrupt: entries count from the base of the I/O APIC.
pub open spec fn route_of(gsi: u32, base: u32) -> Route {
    Route { gsi, entry: ((gsi - base) % 0x1_0000) as u16 }
}

fn route(gsi: u32, base: u32) -> (r: Route)
    ensures
        r == route_of(gsi, base),
{
    let entry: u32 = gsi.wrapping_sub(base) % 0x1_0000;
    assert(entry == (gsi - base) % 0x1_0000) by {
        if gsi < base {
            vstd::arithmetic::div_mod::lemma_mod_multiples_vanish(
                0x1_0000,
                gsi - base,
                0x1_0000,
            );
        }
    }
    Route { gsi, entry: entry as u16 }
}

/// Route the timer to vector 32 and the keyboard to vector 33, on the first CPU. Their
/// global interrupts follow from the overrides.
pub fn init(overrides: &[InterruptOverride], ioapic_gsi_base: u32) -> (r: (
    Route,
    Route,
    [RegisterWrite; 2],
    [RegisterWrite; 2],
))
    ensures
        r.0 == route_of(
            gsi_of(overrides@, 0, overrides@.len() as int),
            ioapic_gsi_base,
        ),
        r.1 == route_of(
            gsi_of(overrides@, 1, overrides@.len() as int),
            ioapic_gsi_base,
        ),
        r.2@ == seq![
            RegisterWrite { reg: ioapic::entry_register(r.0.entry) as u32, value: 32 },
            RegisterWrite { reg: (ioapic::entry_register(r.0.entry) + 1) as u32, value: 0 },
        ],
        r.3@ == seq![
            RegisterWrite { reg: ioapic::entry_register(r.1.entry) as u32, value: 33 },
            RegisterWrite { reg: (ioapic::entry_register(r.1.entry) + 1) as u32, value: 0 },
        ],
{
    let table: [u32; 16] = gsi_table(overrides);
    let pit: Route = route(table[0], ioapic_gsi_base);
    let keyboard: Route = route(table[1], ioapic_gsi_base);
    (pit, keyboard, ioapic::set_irq(pit.entry, 32, 0), ioapic::set_irq(keyboard.entry, 33, 0))
}

/// Without overrides, interrupts are routed one to one.
pub proof fn law_default_routes(irq: int)
    requires
        0 <= irq < 16,
    ensures
        gsi_of(Seq::empty(), irq, 0) == irq,
        route_of(irq as u32, 0).entry == irq,
{
}

} // verus!
