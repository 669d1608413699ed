//! Programmable interval timer: the system tick.
use vstd::prelude::*;

verus! {

/// Channel 0 data port.
pub const PIT_CHANNEL0: u16 = 0x40;

/// Mode/command register.
pub const PIT_COMMAND: u16 = 0x43;

/// Base oscillator frequency (Hz).
pub const PIT_FREQUENCY: u32 = 1_193_182;

/// Timer interrupt frequency (Hz).
pub const PIT_TICK_HZ: u32 = 100;

/// Channel 0, low byte and high byte, rate generator, binary.
pub const PIT_MODE: u8 = 0x34;

/// The divisor that gives the tick frequency.
pub fn divisor() -> (r: u32)
    ensures
        r == 11931,
        100 * r <= 1_193_182 < 100 * (r + 1),
{
    PIT_FREQUENCY / PIT_TICK_HZ
}

/// Initialize channel 0 for periodic interrupts: the ports and bytes to write, in order.
/// The low byte of the divisor goes first.
pub fn init() -> (r: [(u16, u8); 3])
    ensures
        r@ == seq![(0x43u16, 0x34u8), (0x40u16, 0x9Bu8), (0x40u16, 0x2Eu8)],
        100 * (r@[1].1 + 256 * r@[2].1) <= 1_193_182 < 100 * (r@[1].1 + 256 * r@[2].1 + 1),
{
    let d: u32 = divisor();
    let r: [(u16, u8); 3] = [
        (PIT_COMMAND, PIT_MODE),
        (PIT_CHANNEL0, (d % 0x100) as u8),
        (PIT_CHANNEL0, (d / 0x100 % 0x100) as u8),
    ];
    assert(r@ =~= seq![(0x43u16, 0x34u8), (0x40u16, 0x9Bu8), (0x40u16, 0x2Eu8)]);
    r
}

/// Ticks since boot.
#[derive(Debug, Clone, Copy, PartialEq, Eq, Structural)]
pub struct Ticks {
    pub count: u64,
}

/// Counts a tick.
pub fn on_tick(ticks: &mut Ticks)
    requires
        old(ticks).count < u64::MAX,
    ensures
        final(ticks).count == old(ticks).count + 1,
{
    ticks.count = ticks.count + 1;
}

/// Get the current tick count since boot.
pub fn tick_count(ticks: &Ticks) -> (r: u64)
    ensures
        r == ticks.count,
{
    ticks.count
}

/// The tick count at which a wait of `ms` milliseconds that starts now is over.
pub fn sleep_ms(ticks: &Ticks, ms: u64) -> (r: u64)
    requires
        ms * 100 <= u64::MAX,
        ticks.count + ms * 100 / 1000 <= u64::MAX,
    ensures
        r == ticks.count + ms / 10,
        10 * (r - ticks.count) <= ms < 10 * (r - ticks.count) + 10,
{
    ticks.count + ms * PIT_TICK_HZ as u64 / 1000
}

} // verus!
