//! The virtual memory manager: the pages that the kernel maps, the root tables of
//! processes, and the walk from a virtual address to a physical one.
//!
//! A table holds 512 entries of 8 bytes. The tables themselves live in physical memory;
//! a walk says which entry it needs next and is given its value.
use vstd::prelude::*;

use crate::memory;
use crate::memory::map::PhysAddr;
use crate::memory::pmm;
use crate::memory::pmm::Pmm;
use crate::memory::{
    FLAG_PRESENT, FLAG_WRITABLE, KERNEL_HEAP_BASE, KERNEL_HEAP_INITIAL_SIZE, KERNEL_VIRT_BASE,
    PAGE_SIZE,
};

verus! {

/// Entries in a page table.
pub const TABLE_ENTRIES: usize = 512;

/// The part of memory that is identity-mapped at boot (4 GiB).
pub const IDENTITY_END: u64 = 0x1_0000_0000;

/// Physical addresses have 52 bits.
pub const PHYS_LIMIT: u64 = 0x10_0000_0000_0000;

/// Whether an address is canonical: bits 47 to 63 are all equal.
pub open spec fn canonical(addr: u64) -> bool {
    addr < 0x0000_8000_0000_0000 || addr >= 0xFFFF_8000_0000_0000
}

pub fn is_canonical(addr: u64) -> (r: bool)
    ensures
        r == canonical(addr),
{
    addr < 0x0000_8000_0000_0000 || addr >= 0xFFFF_8000_0000_0000
}

/// Convert a physical address to a virtual address. Page tables are reached through the
/// identity map, where both are the same.
pub fn phys_to_virt(phys: u64) -> (r: u64)
    requires
        canonical(phys),
    ensures
        r == phys,
{
    phys
}

/// Convert an identity-mapped virtual address to a physical address.
pub fn virt_to_phys(virt: u64) -> (r: PhysAddr)
    ensures
        r.addr == virt,
{
    PhysAddr::new(virt)
}

/// How many bytes of address space one entry of a table at `level` covers.
pub open spec fn span(level: int) -> int {
    if level == 4 {
        0x80_0000_0000
    } else if level == 3 {
        0x4000_0000
    } else if level == 2 {
        0x20_0000
    } else {
        0x1000
    }
}

/// The entry that stands for an address in a table at `level`; level 4 is the root.
pub open spec fn level_index(addr: u64, level: int) -> int {
    addr as int / span(level) % 512
}

pub fn table_index(addr: u64, level: u8) -> (r: u16)
    requires
        1 <= level <= 4,
    ensures
        r == level_index(addr, level as int),
        r < 512,
{
    let span: u64 = if level == 4 {
        0x80_0000_0000
    } else if level == 3 {
        0x4000_0000
    } else if level == 2 {
        0x20_0000
    } else {
        0x1000
    };
    (addr / span % 512) as u16
}

/// The frame that an entry points to: bits 12 to 51, if the entry is present and does
/// not stand for a huge page.
pub open spec fn entry_frame(entry: u64) -> Option<u64> {
    if entry % 2 == 0 || entry / 128 % 2 == 1 {
        None
    } else {
        Some((entry / 4096 % 0x100_0000_0000 * 4096) as u64)
    }
}

pub fn frame_of(entry: u64) -> (r: Option<u64>)
    ensures
        r == entry_frame(entry),
        r matches Some(f) ==> f < PHYS_LIMIT && f % 4096 == 0,
{
    if entry % 2 == 0 || entry / 128 % 2 == 1 {
        None
    } else {
        Some(entry / 4096 % 0x100_0000_0000 * 4096)
    }
}

/// The frame that an entry of a last-level table maps: bits 12 to 51, unless the entry is
/// unused. Bit 7 is a memory type there and does not stand for a huge page.
pub open spec fn page_frame(entry: u64) -> Option<u64> {
    if entry == 0 {
        None
    } else {
        Some((entry / 4096 % 0x100_0000_0000 * 4096) as u64)
    }
}

/// The frame that an entry at `level` leads to.
pub open spec fn frame_at(entry: u64, level: int) -> Option<u64> {
    if level == 1 {
        page_frame(entry)
    } else {
        entry_frame(entry)
    }
}

pub fn page_frame_of(entry: u64) -> (r: Option<u64>)
    ensures
        r == page_frame(entry),
        r matches Some(f) ==> f < PHYS_LIMIT && f % 4096 == 0,
{
    if entry == 0 {
        None
    } else {
        Some(entry / 4096 % 0x100_0000_0000 * 4096)
    }
}

/// The physical address that the tables in `mem` give a virtual address, starting at the
/// table `table` of the given level.
pub open spec fn translation(mem: spec_fn(u64) -> u64, table: u64, level: int, addr: u64) -> Option<
    u64,
>
    decreases level,
{
    if level <= 0 {
        None
    } else {
        match frame_at(mem((table + 8 * level_index(addr, level)) as u64), level) {
            None => None,
            Some(frame) => if level == 1 {
                Some((frame + addr % 4096) as u64)
            } else {
                translation(mem, frame, level - 1, addr)
            },
        }
    }
}

/// What a walk does next.
#[derive(Debug, Clone, Copy, PartialEq, Eq, Structural)]
pub enum WalkStep {
    /// Read the entry at this physical address and go on with it.
    Read(u64),
    /// The address is mapped to this physical address.
    Mapped(u64),
    NotMapped,
}

/// A walk through the page tables: the table at `level` is the one that is read.
#[derive(Debug, Clone, Copy, PartialEq, Eq, Structural)]
pub struct Walk {
    pub addr: u64,
    pub level: u8,
}

/// What is left to find out when a walk has come to a step.
pub open spec fn outcome(mem: spec_fn(u64) -> u64, walk: Walk, step: WalkStep) -> Option<u64> {
    match step {
        WalkStep::Mapped(phys) => Some(phys),
        WalkStep::NotMapped => None,
        WalkStep::Read(at) => match frame_at(mem(at), walk.level as int) {
            None => None,
            Some(frame) => if walk.level == 1 {
                Some((frame + walk.addr % 4096) as u64)
            } else {
                translation(mem, frame, walk.level - 1, walk.addr)
            },
        },
    }
}

impl Walk {
    /// Start a walk at a root table.
    pub fn start(pml4_phys: u64, addr: u64) -> (r: (Walk, WalkStep))
        requires
            pml4_phys < PHYS_LIMIT,
        ensures
            r.0 == (Walk { addr, level: 4 }),
            r.1 == WalkStep::Read((pml4_phys + 8 * level_index(addr, 4)) as u64),
            forall|mem: spec_fn(u64) -> u64| #[trigger]
                outcome(mem, r.0, r.1) == translation(mem, pml4_phys, 4, addr),
    {
        let index: u64 = table_index(addr, 4) as u64;
        (Walk { addr, level: 4 }, WalkStep::Read(pml4_phys + 8 * index))
    }

    /// Go on with the value of the entry that was asked for.
    pub fn feed(&mut self, entry: u64) -> (r: WalkStep)
        requires
            1 <= old(self).level <= 4,
        ensures
            final(self).addr == old(self).addr,
            r is Read ==> final(self).level == old(self).level - 1 && final(self).level >= 1,
            r !is Read ==> final(self).level == old(self).level,
            forall|mem: spec_fn(u64) -> u64, at: u64|
                mem(at) == entry ==> outcome(mem, *final(self), r) == #[trigger] outcome(
                    mem,
                    *old(self),
                    WalkStep::Read(at),
                ),
    {
        if self.level == 1 {
            return match page_frame_of(entry) {
                None => WalkStep::NotMapped,
                Some(frame) => WalkStep::Mapped(frame + self.addr % 4096),
            };
        }
        match frame_of(entry) {
            None => WalkStep::NotMapped,
            Some(frame) => {
                self.level = self.level - 1;
                let index: u64 = table_index(self.addr, self.level) as u64;
                WalkStep::Read(frame + 8 * index)
            },
        }
    }
}

/// Allocate a frame for an empty root table. All entries are unused.
pub fn create_empty_pml4(pmm: &mut Pmm) -> (r: Option<(PhysAddr, Vec<u64>)>)
    requires
        old(pmm).wf(),
    ensures
        final(pmm).wf(),
        final(pmm).total() == old(pmm).total(),
        final(pmm).excess() == old(pmm).excess(),
        match r {
            Some((frame, entries)) => {
                let i = frame.addr as int / 4096;
                &&& entries@ == Seq::new(512, |k: int| 0u64)
                &&& frame.addr % 4096 == 0
                &&& 0 < i < old(pmm).total()
                &&& !old(pmm).used()[i]
                &&& forall|k: int| 0 <= k < i ==> #[trigger] old(pmm).used()[k]
                &&& final(pmm).used() == old(pmm).used().update(i, true)
            },
            None => {
                &&& forall|k: int| 0 <= k < old(pmm).total() ==> #[trigger] old(pmm).used()[k]
                &&& final(pmm).used() == old(pmm).used()
            },
        },
{
    match pmm::alloc_frame(pmm) {
        Some(frame) => {
            let entries: Vec<u64> = vec![0u64; TABLE_ENTRIES];
            assert(entries@ =~= Seq::new(512, |k: int| 0u64));
            Some((frame, entries))
        },
        None => None,
    }
}

/// Allocate a root table for a process. The upper half is shared with the kernel, the
/// lower half is empty.
pub fn create_user_pml4(pmm: &mut Pmm, kernel_entries: &[u64]) -> (r: Option<(PhysAddr, Vec<u64>)>)
    requires
        old(pmm).wf(),
        kernel_entries@.len() == 512,
    ensures
        final(pmm).wf(),
        final(pmm).total() == old(pmm).total(),
        final(pmm).excess() == old(pmm).excess(),
        match r {
            Some((frame, entries)) => {
                let i = frame.addr as int / 4096;
                &&& entries@ == Seq::new(
                    512,
                    |k: int|
                        if k < 256 {
                            0u64
                        } else {
                            kernel_entries@[k]
                        },
                )
                &&& frame.addr % 4096 == 0
                &&& 0 < i < old(pmm).total()
                &&& !old(pmm).used()[i]
                &&& forall|k: int| 0 <= k < i ==> #[trigger] old(pmm).used()[k]
                &&& final(pmm).used() == old(pmm).used().update(i, true)
            },
            None => {
                &&& forall|k: int| 0 <= k < old(pmm).total() ==> #[trigger] old(pmm).used()[k]
                &&& final(pmm).used() == old(pmm).used()
            },
        },
{
    let (frame, mut entries): (PhysAddr, Vec<u64>) = match create_empty_pml4(pmm) {
        Some(x) => x,
        None => {
            return None;
        },
    };
    let mut k: usize = 256;
    while k < TABLE_ENTRIES
        invariant
            256 <= k <= 512,
            entries@.len() == 512,
            kernel_entries@.len() == 512,
            forall|i: int|
                0 <= i < 512 ==> #[trigger] entries@[i] == if 256 <= i < k {
                    kernel_entries@[i]
                } else {
                    0
                },
        decreases 512 - k,
    {
        let e: u64 = kernel_entries[k];
        entries.set(k, e);
        k = k + 1;
    }
    assert(entries@ =~= Seq::new(
        512,
        |k: int|
            if k < 256 {
                0u64
            } else {
                kernel_entries@[k]
            },
    ));
    Some((frame, entries))
}

/// Remove the identity map from a root table: its first entry becomes unused.
pub fn remove_identity_map(entries: &mut Vec<u64>)
    requires
        old(entries)@.len() == 512,
    ensures
        final(entries)@ == old(entries)@.update(0, 0),
{
    entries.set(0, 0);
}

/// A page to map.
#[derive(Debug, Clone, Copy, PartialEq, Eq, Structural)]
pub struct Mapping {
    pub virt: u64,
    pub phys: u64,
    pub flags: u64,
}

/// What the set-up of the kernel's page tables does next.
#[derive(Debug, Clone, Copy, PartialEq, Eq, Structural)]
pub enum MapStep {
    Page(Mapping),
    OutOfMemory,
    Done,
}

/// The set-up of the kernel's page tables: first the kernel image in the upper half,
/// after it the heap on fresh frames, and last the first 4 GiB as they are.
#[derive(Debug, Clone, Copy, PartialEq, Eq, Structural)]
pub struct KernelMapPlan {
    pub kernel_phys_start: u64,
    pub kernel_phys_end: u64,
    pub done: u64,
}

impl KernelMapPlan {
    /// The number of pages of the kernel image.
    pub open spec fn kernel_pages(&self) -> int {
        if self.kernel_phys_end <= self.kernel_phys_start {
            0
        } else {
            (self.kernel_phys_end - self.kernel_phys_start + 4095) / 4096
        }
    }

    pub open spec fn wf(&self) -> bool {
        &&& self.kernel_phys_end + 4095 <= u64::MAX
        &&& self.done <= self.kernel_pages() + 4096 + 0x10_0000
    }

    /// The `k`-th mapping, where `frame` is the fresh frame if it is one of the heap.
    pub open spec fn mapping(&self, k: int, frame: u64) -> Mapping {
        let n = self.kernel_pages();
        let flags = (FLAG_PRESENT + FLAG_WRITABLE) as u64;
        if k < n {
            Mapping {
                virt: memory::wrap64(KERNEL_VIRT_BASE + k * 4096),
                phys: (self.kernel_phys_start + k * 4096) as u64,
                flags,
            }
        } else if k < n + 4096 {
            Mapping { virt: (KERNEL_HEAP_BASE + (k - n) * 4096) as u64, phys: frame, flags }
        } else {
            let addr = ((k - n - 4096) * 4096) as u64;
            Mapping { virt: addr, phys: addr, flags }
        }
    }
}

/// Set up the kernel's page tables: the mappings to make, in order.
pub fn init_kernel_page_tables(kernel_phys_start: u64, kernel_phys_end: u64) -> (r: KernelMapPlan)
    requires
        kernel_phys_end + 4095 <= u64::MAX,
    ensures
        r.wf(),
        r == (KernelMapPlan { kernel_phys_start, kernel_phys_end, done: 0 }),
{
    KernelMapPlan { kernel_phys_start, kernel_phys_end, done: 0 }
}

impl KernelMapPlan {
    /// The next mapping to make.
    pub fn next(&mut self, pmm: &mut Pmm) -> (r: MapStep)
        requires
            old(self).wf(),
            old(pmm).wf(),
        ensures
            final(self).wf(),
            final(pmm).wf(),
            final(pmm).total() == old(pmm).total(),
            final(pmm).excess() == old(pmm).excess(),
            final(self).kernel_phys_start == old(self).kernel_phys_start,
            final(self).kernel_phys_end == old(self).kernel_phys_end,
            ({
                let n = old(self).kernel_pages();
                let k = old(self).done;
                if k == n + 4096 + 0x10_0000 {
                    &&& r == MapStep::Done
                    &&& final(self).done == k
                    &&& *final(pmm) == *old(pmm)
                } else if k < n || k >= n + 4096 {
                    &&& r == MapStep::Page(old(self).mapping(k as int, 0))
                    &&& final(self).done == k + 1
                    &&& *final(pmm) == *old(pmm)
                } else if r == MapStep::OutOfMemory {
                    &&& forall|i: int| 0 <= i < old(pmm).total() ==> #[trigger] old(pmm).used()[i]
                    &&& final(pmm).used() == old(pmm).used()
                    &&& final(self).done == k
                } else {
                    &&& r matches MapStep::Page(m)
                    &&& m == old(self).mapping(k as int, m.phys)
                    &&& m.phys % 4096 == 0
                    &&& 0 < m.phys as int / 4096 < old(pmm).total()
                    &&& !old(pmm).used()[m.phys as int / 4096]
                    &&& forall|i: int|
                        0 <= i < m.phys as int / 4096 ==> #[trigger] old(pmm).used()[i]
                    &&& final(pmm).used() == old(pmm).used().update(m.phys as int / 4096, true)
                    &&& final(self).done == k + 1
                }
            }),
    {
        let flags: u64 = FLAG_PRESENT + FLAG_WRITABLE;
        let n: u64 = if self.kernel_phys_end <= self.kernel_phys_start {
            0
        } else {
            (self.kernel_phys_end - self.kernel_phys_start + 4095) / PAGE_SIZE
        };
        let heap_pages: u64 = KERNEL_HEAP_INITIAL_SIZE / PAGE_SIZE;
        let identity_pages: u64 = IDENTITY_END / PAGE_SIZE;
        let k: u64 = self.done;
        if k < n {
            let virt: u64 = KERNEL_VIRT_BASE.wrapping_add(k * PAGE_SIZE);
            self.done = k + 1;
            return MapStep::Page(
                Mapping { virt, phys: self.kernel_phys_start + k * PAGE_SIZE, flags },
            );
        }
        if k < n + heap_pages {
            let frame: PhysAddr = match pmm::alloc_frame(pmm) {
                Some(frame) => frame,
                None => {
                    return MapStep::OutOfMemory;
                },
            };
            let virt: u64 = KERNEL_HEAP_BASE + (k - n) * PAGE_SIZE;
            self.done = k + 1;
            return MapStep::Page(Mapping { virt, phys: frame.addr, flags });
        }
        if k < n + heap_pages + identity_pages {
            let addr: u64 = (k - n - heap_pages) * PAGE_SIZE;
            self.done = k + 1;
            return MapStep::Page(Mapping { virt: addr, phys: addr, flags });
        }
        MapStep::Done
    }
}

/// No page is mapped twice, as long as the kernel image ends below the heap.
pub proof fn law_mappings_distinct(plan: KernelMapPlan, j: int, k: int, fj: u64, fk: u64)
    requires
        plan.wf(),
        plan.kernel_phys_end <= plan.kernel_phys_start + 0x4000_0000,
        0 <= j < k < plan.kernel_pages() + 4096 + 0x10_0000,
    ensures
        plan.mapping(j, fj).virt != plan.mapping(k, fk).virt,
{
}

/// The kernel image keeps its layout in the upper half: its pages are where
/// `phys_to_kernel_virt` says.
pub proof fn law_kernel_mapping_agrees(plan: KernelMapPlan, k: int)
    requires
        plan.wf(),
        0 <= k < plan.kernel_pages(),
    ensures
        plan.mapping(k, 0).virt == memory::kernel_virt(
            plan.mapping(k, 0).phys,
            plan.kernel_phys_start,
        ),
{
}

/// A process reaches nothing in the upper half that the kernel's tables do not map, and
/// all that they do map: their walks start from the same entries.
pub proof fn law_user_shares_kernel_half(
    mem: spec_fn(u64) -> u64,
    kernel_pml4: u64,
    user_pml4: u64,
    addr: u64,
)
    requires
        addr >= 0xFFFF_8000_0000_0000,
        forall|i: int|
            256 <= i < 512 ==> mem(#[trigger] entry_address(user_pml4, i)) == mem(
                entry_address(kernel_pml4, i),
            ),
    ensures
        translation(mem, user_pml4, 4, addr) == translation(mem, kernel_pml4, 4, addr),
{
    let i = level_index(addr, 4);
    assert(256 <= i < 512);
    assert(mem(entry_address(user_pml4, i)) == mem(entry_address(kernel_pml4, i)));
}

/// The physical address of an entry of a table.
pub open spec fn entry_address(table: u64, index: int) -> u64 {
    (table + 8 * index) as u64
}

/// With its first entry unused, a root table maps nothing of the first 512 GiB.
pub proof fn law_identity_removed(mem: spec_fn(u64) -> u64, pml4: u64, addr: u64)
    requires
        mem(pml4) == 0,
        addr < 0x80_0000_0000,
    ensures
        translation(mem, pml4, 4, addr) is None,
{
    assert(level_index(addr, 4) == 0);
}

} // verus!
