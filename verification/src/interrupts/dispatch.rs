//! IRQ dispatch: which handler a hardware interrupt goes to.
use vstd::prelude::*;

verus! {

/// Number of hardware IRQ lines.
pub const MAX_IRQ_HANDLERS: usize = 16;

/// Hardware IRQ 0 maps to vector 32.
pub const IRQ_VECTOR_OFFSET: u8 = 32;

/// The handler table. Each entry corresponds to an IRQ.
pub struct HandlerTable<H> {
    pub handlers: [Option<H>; 16],
}

impl<H: Copy> HandlerTable<H> {
    /// A table without handlers.
    pub fn new() -> (r: HandlerTable<H>)
        ensures
            forall|i: int| 0 <= i < 16 ==> (#[trigger] r.handlers@[i]) is None,
    {
        HandlerTable { handlers: [None; 16] }
    }
}

/// Register a handler for a hardware IRQ.
pub fn register<H: Copy>(table: &mut HandlerTable<H>, irq: usize, handler: H)
    requires
        irq < MAX_IRQ_HANDLERS,
    ensures
        final(table).handlers@ == old(table).handlers@.update(irq as int, Some(handler)),
{
    table.handlers[irq] = Some(handler);
}

/// The handler of a vector, if one is registered. The interrupt is acknowledged in any
/// case, after the handler has run.
pub fn dispatch<H: Copy>(table: &HandlerTable<H>, vector: u8) -> (r: Option<H>)
    requires
        vector >= IRQ_VECTOR_OFFSET,
    ensures
        r == if vector < 48 {
            table.handlers@[vector - 32]
        } else {
            None
        },
{
    let irq: usize = (vector - IRQ_VECTOR_OFFSET) as usize;
    if irq < MAX_IRQ_HANDLERS {
        table.handlers[irq]
    } else {
        None
    }
}

/// Check if a vector is a hardware IRQ vector (32-47).
pub fn is_hardware_irq(vector: u8) -> (r: bool)
    ensures
        r == (32 <= vector < 48),
{
    vector >= IRQ_VECTOR_OFFSET && vector < IRQ_VECTOR_OFFSET + MAX_IRQ_HANDLERS as u8
}

/// An interrupt goes to the handler that was registered last for its line, and
/// registering changes no other line.
pub proof fn law_register_then_dispatch<H>(
    before: Seq<Option<H>>,
    irq: int,
    handler: H,
    other: int,
)
    requires
        before.len() == 16,
        0 <= irq < 16,
        0 <= other < 16,
    ensures
        before.update(irq, Some(handler))[other] == if other == irq {
            Some(handler)
        } else {
            before[other]
        },
{
}

} // verus!
