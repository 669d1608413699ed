//! The address space: fixed places in it, and addresses of the kernel image.
use vstd::prelude::*;

pub mod map;
pub mod pmm;
pub mod relocate;
pub mod vmm;

verus! {

/// Size of a single physical page in bytes.
pub const PAGE_SIZE: u64 = 4096;

/// Virtual base address of the kernel (upper half, -2 GiB).
pub const KERNEL_VIRT_BASE: u64 = 0xFFFF_FFFF_8000_0000;

/// Virtual base address of the kernel heap.
pub const KERNEL_HEAP_BASE: u64 = 0xFFFF_FFFF_C000_0000;

/// Initial size of the kernel heap (16 MiB).
pub const KERNEL_HEAP_INITIAL_SIZE: u64 = 16 * 1024 * 1024;

/// Virtual address of user stack top (grows downward).
pub const USER_STACK_TOP: u64 = 0x0000_7FFF_FFFF_0000;

/// Virtual base address of the user heap (grows upward).
pub const USER_HEAP_BASE: u64 = 0x0000_4000_0000_0000;

/// Maximum user heap size (256 MiB).
pub const USER_HEAP_MAX_SIZE: u64 = 256 * 1024 * 1024;

/// Virtual base address for mmap regions (grows upward from here).
pub const USER_MMAP_BASE: u64 = 0x0000_2000_0000_0000;

/// End of user space: the first address that is not canonical.
pub const USER_SPACE_END: u64 = 0x0000_8000_0000_0000;

/// Page flag: the page is mapped.
pub const FLAG_PRESENT: u64 = 1;

/// Page flag: the page can be written.
pub const FLAG_WRITABLE: u64 = 2;

/// Page flag: Ring 3 can access the page.
pub const FLAG_USER: u64 = 4;

/// Page flag: writes go through to memory.
pub const FLAG_WRITE_THROUGH: u64 = 8;

/// Page flag: the page is not cached.
pub const FLAG_NO_CACHE: u64 = 16;

/// Page flag: instructions cannot be fetched from the page.
pub const FLAG_NO_EXECUTE: u64 = 0x8000_0000_0000_0000;

/// A sum that wraps around at 64 bits.
pub open spec fn wrap64(x: int) -> u64 {
    (x % 0x1_0000_0000_0000_0000) as u64
}

/// The kernel virtual address of a physical address inside the kernel image.
pub open spec fn kernel_virt(phys: u64, kernel_phys_start: u64) -> u64 {
    wrap64(phys - kernel_phys_start + KERNEL_VIRT_BASE)
}

/// `a - b`, wrapping around.
pub fn difference(a: u64, b: u64) -> (r: u64)
    ensures
        r == wrap64(a - b),
{
    a.wrapping_sub(b)
}

/// `value - from + to`, wrapping around.
pub fn moved(value: u64, to: u64, from: u64) -> (r: u64)
    ensures
        r == wrap64(to + value - from),
{
    to.wrapping_add(value).wrapping_sub(from)
}

/// Convert a physical address, as stored in relocated kernel data, to its address in
/// the kernel's higher-half mapping.
pub fn phys_to_kernel_virt(phys: u64, kernel_phys_start: u64) -> (r: u64)
    ensures
        r == kernel_virt(phys, kernel_phys_start),
{
    moved(phys, KERNEL_VIRT_BASE, kernel_phys_start)
}

} // verus!
