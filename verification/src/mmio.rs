//! Memory-mapped I/O: where device memory appears in the kernel's address space.
//!
//! Device memory is mapped at a fixed place in the upper half, so that it stays
//! reachable under every process's page tables.
use vstd::prelude::*;

use crate::memory::vmm::Mapping;
use crate::memory::{FLAG_NO_CACHE, FLAG_PRESENT, FLAG_WRITABLE, FLAG_WRITE_THROUGH};

verus! {

/// Base virtual address for device memory in the upper half.
pub const MMIO_UPPER_BASE: u64 = 0xFFFF_FFFF_0000_0000;

/// The kernel virtual address of device memory: its low 32 bits in the upper half.
pub open spec fn mmio_virt(phys: u64) -> u64 {
    (MMIO_UPPER_BASE + phys % 0x1_0000_0000) as u64
}

/// Convert a physical device address to its kernel virtual address.
pub fn mmio_to_virt(phys: u64) -> (r: u64)
    ensures
        r == mmio_virt(phys),
{
    MMIO_UPPER_BASE + phys % 0x1_0000_0000
}

/// How a page of device memory is mapped: writable and not cached.
pub open spec fn mmio_mapping(phys: u64) -> Mapping {
    Mapping {
        virt: mmio_virt(phys),
        phys,
        flags: (FLAG_PRESENT + FLAG_WRITABLE + FLAG_NO_CACHE + FLAG_WRITE_THROUGH) as u64,
    }
}

/// Map a page of device memory: its virtual address, and the mapping to make unless the
/// page is mapped already. `existing` is what the kernel's tables say of the address.
pub fn map_mmio_page(phys: u64, existing: Option<u64>) -> (r: (u64, Option<Mapping>))
    ensures
        r.0 == mmio_virt(phys),
        r.1 == match existing {
            Some(_) => None,
            None => Some(mmio_mapping(phys)),
        },
{
    let virt: u64 = mmio_to_virt(phys);
    match existing {
        Some(_) => (virt, None),
        None => {
            let flags: u64 = FLAG_PRESENT + FLAG_WRITABLE + FLAG_NO_CACHE + FLAG_WRITE_THROUGH;
            (virt, Some(Mapping { virt, phys, flags }))
        },
    }
}

/// A block of device registers.
#[derive(Debug, Clone, Copy, PartialEq, Eq, Structural)]
pub struct MmioRegion {
    pub base: u64,
}

impl MmioRegion {
    /// The registers in the page of a physical address, and the mapping to make unless
    /// the page is mapped already.
    pub fn new(phys_base: u64, existing: Option<u64>) -> (r: (MmioRegion, Option<Mapping>))
        ensures
            r.0.base == mmio_virt((phys_base - phys_base % 4096) as u64),
            r.1 == match existing {
                Some(_) => None,
                None => Some(mmio_mapping((phys_base - phys_base % 4096) as u64)),
            },
    {
        let page: u64 = phys_base - phys_base % 4096;
        let (virt, mapping): (u64, Option<Mapping>) = map_mmio_page(page, existing);
        (MmioRegion { base: virt }, mapping)
    }

    /// The registers at a virtual address that is mapped already.
    pub fn from_virt(virt_base: u64) -> (r: MmioRegion)
        ensures
            r.base == virt_base,
    {
        MmioRegion { base: virt_base }
    }

    /// The virtual address of a register at the given byte offset.
    pub fn reg_addr(&self, offset: u32) -> (r: u64)
        requires
            self.base + offset <= u64::MAX,
        ensures
            r == self.base + offset,
    {
        self.base + offset as u64
    }

    /// What to write to a register to set bits in it.
    pub fn set_bits(&self, value: u32, mask: u32) -> (r: u32)
        ensures
            r == value | mask,
    {
        value | mask
    }

    /// What to write to a register to clear bits in it.
    pub fn clear_bits(&self, value: u32, mask: u32) -> (r: u32)
        ensures
            r == value & !mask,
    {
        value & !mask
    }
}

/// For addresses below 4 GiB, the place in the upper half is the address with all high
/// bits set, and different pages get different places.
pub proof fn law_mmio_distinct(a: u64, b: u64)
    requires
        a < 0x1_0000_0000,
        b < 0x1_0000_0000,
    ensures
        mmio_virt(a) == MMIO_UPPER_BASE | a,
        a != b ==> mmio_virt(a) != mmio_virt(b),
{
    assert(0xFFFF_FFFF_0000_0000u64 | a == 0xFFFF_FFFF_0000_0000u64 + a) by (bit_vector)
        requires
            a < 0x1_0000_0000u64,
    ;
}

} // verus!
