//! AHCI disks: the register programs that bring a port up, the structures of a command,
//! and the course of a command until it is done.
//!
//! Registers are read and written by the caller. A program or a command says which
//! access is next and is given the value that was read.
use vstd::prelude::*;

use crate::block::BlockError;
use crate::memory::map::PhysAddr;
use crate::memory::pmm;
use crate::memory::pmm::Pmm;
use crate::pci::PciDevice;

pub mod hba;
pub mod command;
pub mod program;
pub mod search;

verus! {

/// Maximum number of ports per HBA.
pub const MAX_PORTS: u8 = 32;

/// The DMA structures of a port, one page each.
#[derive(Debug, Clone, Copy, PartialEq, Eq, Structural)]
pub struct DmaPages {
    pub cmd_list: PhysAddr,
    pub rfis: PhysAddr,
    pub cmd_table: PhysAddr,
    pub dma_buf: PhysAddr,
}

/// An AHCI port with its DMA structures.
#[derive(Debug, Clone, Copy, PartialEq, Eq, Structural)]
pub struct AhciPort {
    pub index: u8,
    pub pages: DmaPages,
    pub sector_size: u32,
    pub total_sectors: u64,
    pub active: bool,
}

/// Whether a device is an AHCI controller.
pub open spec fn is_controller(d: PciDevice) -> bool {
    d.class == 0x01 && d.subclass == 0x06 && (d.prog_if == 0x01 || d.prog_if == 0x02)
}

/// Finds the first AHCI controller.
pub fn find_controller(devices: &[PciDevice]) -> (r: Option<usize>)
    ensures
        match r {
            Some(i) => i < devices@.len() && is_controller(devices@[i as int]) && forall|k: int|
                0 <= k < i ==> !is_controller(#[trigger] devices@[k]),
            None => forall|k: int|
                0 <= k < devices@.len() ==> !is_controller(#[trigger] devices@[k]),
        },
{
    let mut i: usize = 0;
    while i < devices.len()
        invariant
            i <= devices@.len(),
            forall|k: int| 0 <= k < i ==> !is_controller(#[trigger] devices@[k]),
        decreases devices@.len() - i,
    {
        let d: &PciDevice = &devices[i];
        if d.class == 0x01 && d.subclass == 0x06 && (d.prog_if == 0x01 || d.prog_if == 0x02) {
            return Some(i);
        }
        i = i + 1;
    }
    None
}

/// The number of ports that the capabilities register gives.
pub fn port_count(cap: u32) -> (r: u8)
    ensures
        r == cap % 32 + 1,
        r <= MAX_PORTS,
{
    (cap % 32) as u8 + 1
}

/// Whether the status of a port says that a device is there and communicating.
pub fn device_detected(ssts: u32) -> (r: bool)
    ensures
        r == (ssts % 16 == 3),
{
    ssts % 16 == 3
}

/// The address and the new value of a function's command register that make it a bus
/// master with access to memory: bits 1 and 2 are set.
pub fn enable_bus_mastering(command: u32) -> (r: u32)
    ensures
        r == command - command / 2 % 4 * 2 + 6,
        r as int / 2 % 4 == 3,
        r as int % 2 == command as int % 2,
        r as int / 8 == command as int / 8,
{
    command - command / 2 % 4 * 2 + 6
}

/// Allocate a single page for DMA.
pub fn alloc_dma_page(pmm: &mut Pmm) -> (r: Option<PhysAddr>)
    requires
        old(pmm).wf(),
    ensures
        final(pmm).wf(),
        final(pmm).total() == old(pmm).total(),
        final(pmm).excess() == old(pmm).excess(),
        match r {
            Some(frame) => {
                let i = frame.addr as int / 4096;
                &&& frame.addr % 4096 == 0
                &&& 0 < i < old(pmm).total()
                &&& !old(pmm).used()[i]
                &&& forall|k: int| 0 <= k < i ==> #[trigger] old(pmm).used()[k]
                &&& final(pmm).used() == old(pmm).used().update(i, true)
                &&& final(pmm).reported_free() == old(pmm).reported_free() - 1
            },
            None => {
                &&& forall|k: int| 0 <= k < old(pmm).total() ==> #[trigger] old(pmm).used()[k]
                &&& final(pmm).used() == old(pmm).used()
                &&& final(pmm).reported_free() == old(pmm).reported_free()
            },
        },
{
    pmm::alloc_frame(pmm)
}

/// The number of free frames.
pub open spec fn frames_left(pmm: Pmm) -> int {
    pmm::free_count(pmm.used(), pmm.total())
}

/// The page of a port that cannot be had if only `n` frames are free.
pub open spec fn missing_page(n: int) -> Seq<char> {
    if n == 0 {
        "alloc cmd list"@
    } else if n == 1 {
        "alloc rfis"@
    } else if n == 2 {
        "alloc cmd table"@
    } else {
        "alloc dma buf"@
    }
}

/// Whether a frame was free and is in use now.
pub open spec fn taken(before: Pmm, after: Pmm, frame: PhysAddr) -> bool {
    let i = frame.addr as int / 4096;
    frame.addr % 4096 == 0 && 0 < i < before.total() && !before.used()[i] && after.used()[i]
}

/// Allocate the four pages of a port. An error names the page that could not be had.
pub fn alloc_port_pages(pmm: &mut Pmm) -> (r: Result<DmaPages, &'static str>)
    requires
        old(pmm).wf(),
    ensures
        final(pmm).wf(),
        final(pmm).total() == old(pmm).total(),
        final(pmm).excess() == old(pmm).excess(),
        match r {
            Ok(p) => {
                &&& frames_left(*old(pmm)) >= 4
                &&& taken(*old(pmm), *final(pmm), p.cmd_list)
                &&& taken(*old(pmm), *final(pmm), p.rfis)
                &&& taken(*old(pmm), *final(pmm), p.cmd_table)
                &&& taken(*old(pmm), *final(pmm), p.dma_buf)
                &&& p.cmd_list.addr < p.rfis.addr < p.cmd_table.addr < p.dma_buf.addr
                &&& final(pmm).used() == old(pmm).used().update(
                    p.cmd_list.addr as int / 4096,
                    true,
                ).update(p.rfis.addr as int / 4096, true).update(
                    p.cmd_table.addr as int / 4096,
                    true,
                ).update(p.dma_buf.addr as int / 4096, true)
            },
            Err(e) => {
                &&& frames_left(*old(pmm)) < 4
                &&& e@ == missing_page(frames_left(*old(pmm)))
                &&& frames_left(*final(pmm)) == 0
            },
        },
{
    let cmd_list: PhysAddr = match alloc_dma_page(pmm) {
        Some(p) => p,
        None => {
            proof {
                pmm.lemma_wf();
                pmm::lemma_all_used(pmm.used(), pmm.total());
            }
            return Err("alloc cmd list");
        },
    };
    let ghost one = *pmm;
    let rfis: PhysAddr = match alloc_dma_page(pmm) {
        Some(p) => p,
        None => {
            proof {
                pmm.lemma_wf();
                pmm::lemma_all_used(pmm.used(), pmm.total());
            }
            return Err("alloc rfis");
        },
    };
    let ghost two = *pmm;
    let cmd_table: PhysAddr = match alloc_dma_page(pmm) {
        Some(p) => p,
        None => {
            proof {
                pmm.lemma_wf();
                pmm::lemma_all_used(pmm.used(), pmm.total());
            }
            return Err("alloc cmd table");
        },
    };
    let dma_buf: PhysAddr = match alloc_dma_page(pmm) {
        Some(p) => p,
        None => {
            proof {
                pmm.lemma_wf();
                pmm::lemma_all_used(pmm.used(), pmm.total());
            }
            return Err("alloc dma buf");
        },
    };
    proof {
        old(pmm).lemma_wf();
        pmm.lemma_wf();
        pmm::lemma_free_count_bounds(pmm.used(), pmm.total());
        let (i, j) = (cmd_list.addr as int / 4096, rfis.addr as int / 4096);
        let (k, l) = (cmd_table.addr as int / 4096, dma_buf.addr as int / 4096);
        assert(one.used()[i] && two.used()[j]);
        assert(i < j) by {
            if j < i {
                assert(old(pmm).used()[j]);
            }
        }
        assert(j < k) by {
            if k < j {
                assert(one.used()[k]);
            }
        }
        assert(k < l);
    }
    Ok(DmaPages { cmd_list, rfis, cmd_table, dma_buf })
}

/// The port that an identify command describes. A drive without sectors is refused.
pub fn init_port(index: u8, pages: DmaPages, sector_size: u32, total_sectors: u64) -> (r: Result<
    AhciPort,
    &'static str,
>)
    ensures
        match r {
            Ok(p) => total_sectors != 0 && p == (AhciPort {
                index,
                pages,
                sector_size,
                total_sectors,
                active: true,
            }),
            Err(e) => total_sectors == 0 && e@ == "no sectors detected"@,
        },
{
    if total_sectors == 0 {
        return Err("no sectors detected");
    }
    Ok(AhciPort { index, pages, sector_size, total_sectors, active: true })
}

/// What a request gets before the hardware is asked.
pub open spec fn port_error(port: AhciPort, lba: u64, len: int) -> Option<BlockError> {
    match crate::block::request_error(
        port.sector_size as int,
        port.total_sectors as int,
        lba as int,
        len,
    ) {
        Some(e) => Some(e),
        None => if !port.active {
            Some(BlockError::DeviceNotReady)
        } else {
            None
        },
    }
}

impl AhciPort {
    /// Checks a request for one sector.
    pub fn check(&self, lba: u64, len: usize) -> (r: Result<(), BlockError>)
        ensures
            r == match port_error(*self, lba, len as int) {
                Some(e) => Err::<(), BlockError>(e),
                None => Ok(()),
            },
    {
        if len as u64 != self.sector_size as u64 {
            return Err(BlockError::InvalidBufferSize);
        }
        if lba >= self.total_sectors {
            return Err(BlockError::OutOfBounds);
        }
        if !self.active {
            return Err(BlockError::DeviceNotReady);
        }
        Ok(())
    }
}

} // verus!
