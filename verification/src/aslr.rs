//! Address space layout randomization: a small generator of pseudo-random numbers, and
//! the places in a process's address space that it moves.
use vstd::prelude::*;

use crate::memory::{PAGE_SIZE, USER_HEAP_BASE, USER_MMAP_BASE, USER_STACK_TOP};

verus! {

/// Pages that the stack top may be moved down by.
pub const STACK_ASLR_SLOTS: u64 = 16;

/// Pages that the mmap region may be moved up by.
pub const MMAP_ASLR_SLOTS: u64 = 32;

/// Pages that the heap may be moved up by.
pub const HEAP_ASLR_SLOTS: u64 = 64;

/// The state of the generator.
#[derive(Debug, Clone, Copy, PartialEq, Eq, Structural)]
pub struct Prng {
    pub state: u64,
}

pub open spec fn shift_left_13(x: u64) -> u64 {
    x ^ (x << 13u64)
}

pub open spec fn shift_right_7(x: u64) -> u64 {
    x ^ (x >> 7u64)
}

pub open spec fn shift_left_17(x: u64) -> u64 {
    x ^ (x << 17u64)
}

/// One step of the xorshift generator.
pub open spec fn xorshift(x: u64) -> u64 {
    shift_left_17(shift_right_7(shift_left_13(x)))
}

/// Initialize the generator with a seed.
pub fn init(seed: u64) -> (r: Prng)
    ensures
        r.state == seed,
{
    Prng { state: seed }
}

/// The next number, which is also the next state.
pub fn next_u64(prng: &mut Prng) -> (r: u64)
    ensures
        r == xorshift(old(prng).state),
        final(prng).state == r,
{
    let a: u64 = prng.state ^ (prng.state << 13u64);
    let b: u64 = a ^ (a >> 7u64);
    let c: u64 = b ^ (b << 17u64);
    prng.state = c;
    c
}

/// A random value in [0, max); 0 if `max` is 0, and then the state stays.
pub fn rand_range(prng: &mut Prng, max: u64) -> (r: u64)
    ensures
        max == 0 ==> r == 0 && *final(prng) == *old(prng),
        max > 0 ==> r == xorshift(old(prng).state) % max && r < max && final(prng).state
            == xorshift(old(prng).state),
{
    if max == 0 {
        return 0;
    }
    next_u64(prng) % max
}

/// A random page-aligned offset of less than `num_slots` pages; 0 without slots, and then
/// the state stays. All the offsets have to be 64-bit numbers.
pub fn random_page_offset(prng: &mut Prng, num_slots: u64) -> (r: u64)
    requires
        num_slots <= 0x10_0000_0000_0000,
    ensures
        num_slots == 0 ==> r == 0 && *final(prng) == *old(prng),
        num_slots > 0 ==> r == xorshift(old(prng).state) % num_slots * 4096 && final(prng).state
            == xorshift(old(prng).state),
{
    rand_range(prng, num_slots) * PAGE_SIZE
}

/// Get a randomized user stack top, at most 16 pages below the nominal one.
pub fn randomize_stack_base(prng: &mut Prng) -> (r: u64)
    ensures
        r == USER_STACK_TOP - xorshift(old(prng).state) % 16 * 4096,
        r % 4096 == 0,
        USER_STACK_TOP - 16 * 4096 < r <= USER_STACK_TOP,
        final(prng).state == xorshift(old(prng).state),
{
    USER_STACK_TOP - random_page_offset(prng, STACK_ASLR_SLOTS)
}

/// Get a randomized mmap base address, at most 32 pages above the nominal one.
pub fn randomize_mmap_base(prng: &mut Prng) -> (r: u64)
    ensures
        r == USER_MMAP_BASE + xorshift(old(prng).state) % 32 * 4096,
        r % 4096 == 0,
        USER_MMAP_BASE <= r < USER_MMAP_BASE + 32 * 4096,
        final(prng).state == xorshift(old(prng).state),
{
    USER_MMAP_BASE + random_page_offset(prng, MMAP_ASLR_SLOTS)
}

/// Get a randomized heap base address, at most 64 pages above the nominal one.
pub fn randomize_heap_base(prng: &mut Prng) -> (r: u64)
    ensures
        r == USER_HEAP_BASE + xorshift(old(prng).state) % 64 * 4096,
        r % 4096 == 0,
        USER_HEAP_BASE <= r < USER_HEAP_BASE + 64 * 4096,
        final(prng).state == xorshift(old(prng).state),
{
    USER_HEAP_BASE + random_page_offset(prng, HEAP_ASLR_SLOTS)
}

/// A generator that was seeded with anything but 0 never falls to 0, where it would stay.
pub proof fn law_state_stays_nonzero(x: u64)
    ensures
        x != 0 ==> xorshift(x) != 0,
        xorshift(0) == 0,
{
    let a = shift_left_13(x);
    let b = shift_right_7(a);
    assert(x != 0 ==> x ^ (x << 13u64) != 0) by (bit_vector);
    assert(a != 0 ==> a ^ (a >> 7u64) != 0) by (bit_vector);
    assert(b != 0 ==> b ^ (b << 17u64) != 0) by (bit_vector);
    assert(0u64 ^ (0u64 << 13u64) == 0u64 && 0u64 ^ (0u64 >> 7u64) == 0u64 && 0u64 ^ (0u64 << 17u64)
        == 0u64) by (bit_vector);
}

} // verus!
