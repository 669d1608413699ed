//! The check of the whole storage: the disk, the volume on it, the file tree, and once more
//! the parts that the earlier checks looked at.
use vstd::prelude::*;

use crate::block::ramdisk::RamDisk;
use crate::block::registry::{get_device, BlockDeviceRegistry};
use crate::block::BlockDevice;
use crate::fat32::fs;
use crate::fat32::fs::Fat32Fs;
use crate::selftest::disk;
use crate::selftest::disk::{
    phase91_block_test, phase93_ahci_test, read_disk, AhciReads, DiskVerdict,
};
use crate::selftest::fat;
use crate::selftest::fat::{
    storage_report, storage_summary, DiskReads, FailedMount, FatReads, TreeReads,
};
use crate::selftest::files;
use crate::selftest::files::{
    phase92_vfs_file_test, FdTable, FdTableView, HandleReads, TreeFile,
};
use crate::selftest::programs;
use crate::selftest::report;
use crate::selftest::report::{Report, ReportView};
use crate::selftest::volume;
use crate::selftest::volume::read_volume;

verus! {

/// What the file tree gave, in every part of the check.
pub struct TreeAnswers {
    pub tree: TreeReads,
    pub file: TreeFile,
    pub handles: HandleReads,
    /// The number that stands for an I/O error.
    pub io_errno: u64,
}

/// Whether a volume on the first device gives these answers, or cannot be mounted.
pub open spec fn fat_gives<D: BlockDevice>(
    device: &D,
    io_errno: u64,
    got: Result<FatReads, FailedMount>,
) -> bool {
    match got {
        Ok(f) => exists|v: Fat32Fs|
            #![trigger volume::volume_gives(device, v, f)]
            fs::mountable(device) && fs::volume_on(device.sectors()) == Some(v.inner.bpb)
                && volume::volume_gives(device, v, f),
        Err(e) => {
            &&& e.errno == io_errno
            &&& fs::mount_said(device, Seq::empty(), e.said@, false)
            &&& device.reliable() ==> !fs::mountable(device) || fs::volume_on(device.sectors())
                is None
        },
    }
}

/// Whether the first device gives these answers.
pub open spec fn storage_gives<D: BlockDevice>(
    device: Option<D>,
    io_errno: u64,
    d: Option<DiskReads>,
    f: Result<FatReads, FailedMount>,
    a: Option<AhciReads>,
) -> bool {
    match device {
        None => {
            &&& d is None
            &&& f matches Err(e) && e.errno == io_errno && e.said@ == Seq::<u8>::empty()
            &&& a is None
        },
        Some(x) => d matches Some(dd) && disk::disk_gives(&x, dd) && fat_gives(&x, io_errno, f)
            && (f is Ok ==> disk::gives(device, a)),
    }
}

/// Whether the check of the first device ends without a contradiction.
pub open spec fn sound(end: DiskVerdict) -> bool {
    end == DiskVerdict::Skipped || end == DiskVerdict::ReadFailed || end == DiskVerdict::Passed
}

/// The repetition of the earlier checks.
pub open spec fn with_repetition(
    v: ReportView,
    t: &TreeAnswers,
    a: Option<AhciReads>,
    found: bool,
    fds: FdTableView,
    id: usize,
) -> ReportView {
    let v = report::put_line(v, "[T]   Running Phase 9.1 regression..."@);
    let v = disk::with_ram_test(v, id);
    let v = report::put_line(v, "[T]   Running Phase 9.2+9.2b regression..."@);
    let v = files::with_file_test(v, &t.file, &t.handles, found, fds);
    let v = report::put_line(v, "[T]   Running Phase 9.3 regression..."@);
    disk::with_ahci(v, a)
}

/// The report on the whole storage.
pub open spec fn with_storage_test(
    v: ReportView,
    t: &TreeAnswers,
    d: Option<DiskReads>,
    f: Result<FatReads, FailedMount>,
    a: Option<AhciReads>,
    found: bool,
    fds: FdTableView,
    id: usize,
) -> ReportView {
    let v = fat::with_storage(v, d, f, &t.tree);
    if d is Some && f is Ok {
        let v = with_repetition(v, t, a, found, fds, id);
        if sound(disk::verdict(a)) {
            fat::with_storage_summary(v)
        } else {
            v
        }
    } else {
        v
    }
}

fn is_sound(end: DiskVerdict) -> (r: bool)
    ensures
        r == sound(end),
{
    end == DiskVerdict::Skipped || end == DiskVerdict::ReadFailed || end == DiskVerdict::Passed
}

/// Repeats the earlier checks.
fn repeat<D: BlockDevice>(
    r: &mut Report,
    registry: &BlockDeviceRegistry<D>,
    t: &TreeAnswers,
    ram: &mut BlockDeviceRegistry<RamDisk>,
    found: bool,
    fds: &mut FdTable,
) -> (end: DiskVerdict)
    requires
        registry.wf(),
        registry.lookup(0) matches Some(d) ==> d.wf(),
        programs::has_room(old(ram)),
    ensures
        exists|a: Option<AhciReads>|
            #![trigger disk::gives(registry.lookup(0), a)]
            disk::gives(registry.lookup(0), a) && end == disk::verdict(a) && final(r)@
                == with_repetition(
                    old(r)@,
                    t,
                    a,
                    found,
                    old(fds)@,
                    disk::first_free(old(ram).slots(), 0) as usize,
                ),
        final(r).checks() == old(r).checks(),
        final(ram).wf(),
        final(ram).slots() == old(ram).slots(),
        final(fds)@ == files::after_file_test(&t.file, &t.handles, found, old(fds)@),
{
    r.put_line("[T]   Running Phase 9.1 regression...");
    phase91_block_test(r, ram);
    r.put_line("[T]   Running Phase 9.2+9.2b regression...");
    phase92_vfs_file_test(r, &t.file, &t.handles, found, fds);
    r.put_line("[T]   Running Phase 9.3 regression...");
    phase93_ahci_test(r, registry)
}

/// Checks the whole storage: reads the first device and the volume on it, and writes the
/// report on them and on what the file tree gave. How the repeated check of the first
/// device ended, if it came to that.
pub fn phase94_fat32_init<D: BlockDevice>(
    r: &mut Report,
    registry: &BlockDeviceRegistry<D>,
    t: &TreeAnswers,
    ram: &mut BlockDeviceRegistry<RamDisk>,
    found: bool,
    fds: &mut FdTable,
) -> (end: Option<DiskVerdict>)
    requires
        registry.wf(),
        registry.lookup(0) matches Some(d) ==> d.wf(),
        programs::has_room(old(ram)),
        old(r).checks() + 30 <= u32::MAX,
    ensures
        exists|d: Option<DiskReads>, f: Result<FatReads, FailedMount>, a: Option<AhciReads>|
            #![trigger storage_gives(registry.lookup(0), t.io_errno, d, f, a)]
            {
                &&& storage_gives(registry.lookup(0), t.io_errno, d, f, a)
                &&& final(r)@ == with_storage_test(
                    old(r)@,
                    t,
                    d,
                    f,
                    a,
                    found,
                    old(fds)@,
                    disk::first_free(old(ram).slots(), 0) as usize,
                )
                &&& end == (if d is Some && f is Ok {
                    Some(disk::verdict(a))
                } else {
                    None
                })
                &&& final(fds)@ == if d is Some && f is Ok {
                    files::after_file_test(&t.file, &t.handles, found, old(fds)@)
                } else {
                    old(fds)@
                }
            },
        final(r).checks() <= old(r).checks() + 30,
        final(ram).wf(),
        final(ram).slots() == old(ram).slots(),
{
    let ghost start = r@;
    let ghost table = fds@;
    let io_errno: u64 = t.io_errno;
    let mut d: Option<DiskReads> = None;
    let mut f: Result<FatReads, FailedMount> = Err(
        FailedMount { errno: io_errno, said: Vec::new() },
    );
    match get_device(registry, 0) {
        Some(device) => {
            d = Some(read_disk(device));
            f = match read_volume(registry, 0) {
                Ok(reads) => Ok(reads),
                Err(said) => Err(FailedMount { errno: io_errno, said }),
            };
        },
        None => {},
    }
    let ghost none: Option<AhciReads> = None;
    assert(registry.lookup(0) matches Some(x) ==> fat_gives(&x, io_errno, f));
    if !storage_report(r, &d, &f, &t.tree) {
        assert(storage_gives(registry.lookup(0), io_errno, d, f, none));
        return None;
    }
    let ghost middle = r@;
    let end: DiskVerdict = repeat(r, registry, t, ram, found, fds);
    proof {
        let a = choose|a: Option<AhciReads>|
            #![trigger disk::gives(registry.lookup(0), a)]
            disk::gives(registry.lookup(0), a) && end == disk::verdict(a) && r@
                == with_repetition(
                    middle,
                    t,
                    a,
                    found,
                    table,
                    disk::first_free(old(ram).slots(), 0) as usize,
                );
        assert(storage_gives(registry.lookup(0), io_errno, d, f, a));
    }
    if is_sound(end) {
        storage_summary(r);
    }
    Some(end)
}

} // verus!
