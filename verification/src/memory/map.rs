//! The physical memory map.
use vstd::prelude::*;

verus! {

/// The most regions that a memory map holds.
pub const MAX_MEMORY_REGIONS: usize = 256;

/// A physical address.
#[derive(Debug, Clone, Copy, PartialEq, Eq, Structural)]
pub struct PhysAddr {
    pub addr: u64,
}

impl PhysAddr {
    pub fn new(addr: u64) -> (r: PhysAddr)
        ensures
            r.addr == addr,
    {
        PhysAddr { addr }
    }

    pub fn as_u64(&self) -> (r: u64)
        ensures
            r == self.addr,
    {
        self.addr
    }
}

/// What a region of physical memory is for.
#[derive(Debug, Clone, Copy, PartialEq, Eq, Structural)]
pub enum MemoryRegionKind {
    Usable,
    Reserved,
    BootloaderCode,
    KernelCode,
    AcpiReclaimable,
    AcpiNvs,
    Mmio,
}

/// A region of physical memory.
#[derive(Debug, Clone, Copy, PartialEq, Eq, Structural)]
pub struct MemoryRegion {
    pub start: PhysAddr,
    pub length: u64,
    pub kind: MemoryRegionKind,
}

/// The regions of physical memory, as the firmware reported them.
pub struct MemoryMap {
    pub regions: Vec<MemoryRegion>,
}

/// A firmware memory descriptor: type number, start and number of pages.
#[derive(Debug, Clone, Copy, PartialEq, Eq, Structural)]
pub struct FirmwareRegion {
    pub ty: u32,
    pub phys_start: u64,
    pub page_count: u64,
}

/// What a firmware memory type is for: 7 is conventional memory, 3 and 4 are boot
/// services, 1 and 2 the loader, 9 and 10 ACPI, 11 and 12 device memory.
pub open spec fn kind_of(ty: u32) -> MemoryRegionKind {
    if ty == 7 {
        MemoryRegionKind::Usable
    } else if ty == 3 || ty == 4 {
        MemoryRegionKind::BootloaderCode
    } else if ty == 1 || ty == 2 {
        MemoryRegionKind::KernelCode
    } else if ty == 9 {
        MemoryRegionKind::AcpiReclaimable
    } else if ty == 10 {
        MemoryRegionKind::AcpiNvs
    } else if ty == 11 || ty == 12 {
        MemoryRegionKind::Mmio
    } else {
        MemoryRegionKind::Reserved
    }
}

pub open spec fn region_of(d: FirmwareRegion) -> MemoryRegion {
    MemoryRegion {
        start: PhysAddr { addr: d.phys_start },
        length: (d.page_count * 4096) as u64,
        kind: kind_of(d.ty),
    }
}

/// Build the memory map from firmware descriptors, as many as it holds.
pub fn build_memory_map(descriptors: &[FirmwareRegion]) -> (r: MemoryMap)
    requires
        forall|i: int|
            0 <= i < descriptors@.len() ==> (#[trigger] descriptors@[i]).page_count * 4096
                <= u64::MAX,
    ensures
        r.regions@.len() == if descriptors@.len() < MAX_MEMORY_REGIONS {
            descriptors@.len() as int
        } else {
            MAX_MEMORY_REGIONS as int
        },
        forall|i: int|
            0 <= i < r.regions@.len() ==> #[trigger] r.regions@[i] == region_of(descriptors@[i]),
{
    let mut regions: Vec<MemoryRegion> = Vec::new();
    let mut i: usize = 0;
    while i < descriptors.len() && i < MAX_MEMORY_REGIONS
        invariant
            i <= descriptors@.len(),
            i <= MAX_MEMORY_REGIONS,
            regions@.len() == i,
            forall|k: int|
                0 <= k < descriptors@.len() ==> (#[trigger] descriptors@[k]).page_count * 4096
                    <= u64::MAX,
            forall|k: int| 0 <= k < i ==> #[trigger] regions@[k] == region_of(descriptors@[k]),
        decreases descriptors@.len() - i,
    {
        let d: FirmwareRegion = descriptors[i];
        assert(d == descriptors@[i as int]);
        let kind: MemoryRegionKind = if d.ty == 7 {
            MemoryRegionKind::Usable
        } else if d.ty == 3 || d.ty == 4 {
            MemoryRegionKind::BootloaderCode
        } else if d.ty == 1 || d.ty == 2 {
            MemoryRegionKind::KernelCode
        } else if d.ty == 9 {
            MemoryRegionKind::AcpiReclaimable
        } else if d.ty == 10 {
            MemoryRegionKind::AcpiNvs
        } else if d.ty == 11 || d.ty == 12 {
            MemoryRegionKind::Mmio
        } else {
            MemoryRegionKind::Reserved
        };
        regions.push(
            MemoryRegion {
                start: PhysAddr { addr: d.phys_start },
                length: d.page_count * 4096,
                kind,
            },
        );
        i = i + 1;
    }
    MemoryMap { regions }
}

} // verus!
