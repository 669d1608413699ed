//! Checks of the disk, of the FAT file system on it, and of the file tree.
use vstd::prelude::*;

use crate::selftest::report;
use crate::selftest::report::{
    counts, equals, has_name, has_text, is_elf, is_mz, same, same_names, summary, title, Report, ReportView,
};
use crate::vfs::VfsError;

verus! {

/// The contents of a sector that was read three times.
pub struct Triple {
    pub a: [u8; 512],
    pub b: [u8; 512],
    pub c: [u8; 512],
}

/// How far the way to a file could be followed, and what it holds. `again` is what a
/// second reading gave, if the file could be opened again.
pub enum FileWay {
    NoTop,
    NoDirectory,
    NoFile,
    NotOpened,
    Read { data: Vec<u8>, again: Option<Vec<u8>> },
}

/// How far the way to a file could be followed, and whether it is a file.
pub enum DeepWay {
    NoTop,
    NoDirectory,
    NoFile,
    Found { is_file: bool, is_dir: bool },
}

/// What reading a directory through the file tree gave.
pub enum Listing {
    NotOpened,
    NotRead,
    Read { data: Vec<u8> },
}

/// What the raw disk gave. Sectors that could not be read are `None`.
pub struct DiskReads {
    pub mbr: Option<[u8; 512]>,
    pub boot: Option<[u8; 512]>,
    /// Whether sectors 1 to 4 could be read.
    pub gap: [bool; 4],
    pub scattered_mbr: Option<[u8; 512]>,
    /// Whether sectors 0x3F, 0x238, 0x1000 and 0x40000 could be read.
    pub scattered: [bool; 4],
    pub boot_three: Option<Triple>,
    pub past_end_refused: bool,
    pub short_buffer_refused: bool,
    pub mbr_three: Option<Triple>,
    pub boot_again_three: Option<Triple>,
}

/// A volume that could not be mounted: the error, and what was said of it.
pub struct FailedMount {
    pub errno: u64,
    pub said: Vec<u8>,
}

/// What the file system on the disk gave, and what was said when it was mounted, twice.
pub struct FatReads {
    pub said: Vec<u8>,
    pub name: Vec<u8>,
    pub remount_said: Vec<u8>,
    pub remount_name: Option<Vec<u8>>,
    pub root: Option<Vec<Vec<u8>>>,
    pub root_again: Option<(Vec<Vec<u8>>, Vec<Vec<u8>>)>,
    /// Whether the entry `EFI` is a directory, and what it lists.
    pub efi: Option<(bool, Option<Vec<Vec<u8>>>)>,
    pub deep: DeepWay,
    pub loader: FileWay,
    pub kernel: FileWay,
}

/// What the file tree gave, with the file system mounted at `/disk`.
pub struct TreeReads {
    pub mounted: bool,
    /// What was said when it was mounted.
    pub said: Vec<u8>,
    /// Whether a path could be resolved, and whether it is a directory.
    pub disk: Option<bool>,
    pub efi: Option<bool>,
    pub script: Option<(Vec<u8>, Vec<u8>)>,
    pub listing: Listing,
    pub loader: Option<(Vec<u8>, Vec<u8>)>,
    /// How opening a missing file failed; `None` if it did not.
    pub missing: Option<VfsError>,
    pub traversal_resolved: bool,
}

fn same_sector(a: &[u8; 512], b: &[u8; 512]) -> (r: bool)
    ensures
        r == (a@ == b@),
{
    same(a.as_slice(), b.as_slice())
}

/// The first sector has a boot signature.
pub open spec fn with_check_mbr(v: ReportView, d: &DiskReads) -> ReportView {
    match &d.mbr {
        Some(b) => {
            if b@[510] == 0x55 && b@[511] == 0xAA {
                report::passed(v, "T1.1 MBR read + signature 0x55AA"@)
            } else {
                report::failed(v, "T1.1 MBR signature mismatch"@)
            }
        },
        None => report::failed(v, "T1.1 MBR read failed"@),
    }
}

fn check_mbr(r: &mut Report, d: &DiskReads)
    requires
        old(r).checks() + 1 <= u32::MAX,
    ensures
        final(r)@ == with_check_mbr(old(r)@, d),
        final(r).checks() <= old(r).checks() + 1,
{
    match &d.mbr {
        Some(b) => {
            if b[510] == 0x55 && b[511] == 0xAA {
                r.pass("T1.1 MBR read + signature 0x55AA");
            } else {
                r.fail("T1.1 MBR signature mismatch");
            }
        },
        None => {
            r.fail("T1.1 MBR read failed");
        },
    }
}

/// The partition's boot sector has a signature, a jump, and sectors of 512 bytes.
pub open spec fn with_check_boot_sector(v: ReportView, d: &DiskReads) -> ReportView {
    match &d.boot {
        Some(b) => {
            if b@[510] == 0x55 && b@[511] == 0xAA && (b@[0] == 0xEB || b@[0] == 0xE9) {
                if b@[11] == 0 && b@[12] == 2 {
                    report::passed(v, "T1.2 Partition boot sector + valid BPB"@)
                } else {
                    report::failed(v, "T1.2 bytes_per_sector != 512"@)
                }
            } else {
                report::failed(v, "T1.2 Boot sector signature/JMP invalid"@)
            }
        },
        None => report::failed(v, "T1.2 Partition boot sector read failed"@),
    }
}

fn check_boot_sector(r: &mut Report, d: &DiskReads)
    requires
        old(r).checks() + 1 <= u32::MAX,
    ensures
        final(r)@ == with_check_boot_sector(old(r)@, d),
        final(r).checks() <= old(r).checks() + 1,
{
    match &d.boot {
        Some(b) => {
            if b[510] == 0x55 && b[511] == 0xAA && (b[0] == 0xEB || b[0] == 0xE9) {
                if b[11] == 0 && b[12] == 2 {
                    r.pass("T1.2 Partition boot sector + valid BPB");
                } else {
                    r.fail("T1.2 bytes_per_sector != 512");
                }
            } else {
                r.fail("T1.2 Boot sector signature/JMP invalid");
            }
        },
        None => {
            r.fail("T1.2 Partition boot sector read failed");
        },
    }
}

/// Four sectors in a row can be read.
pub open spec fn with_check_gap(v: ReportView, d: &DiskReads) -> ReportView {
    if d.gap@[0] && d.gap@[1] && d.gap@[2] && d.gap@[3] {
        report::passed(v, "T1.3 Four consecutive sector reads (LBA 1-4)"@)
    } else {
        report::failed(v, "T1.3 Consecutive reads failed"@)
    }
}

fn check_gap(r: &mut Report, d: &DiskReads)
    requires
        old(r).checks() + 1 <= u32::MAX,
    ensures
        final(r)@ == with_check_gap(old(r)@, d),
        final(r).checks() <= old(r).checks() + 1,
{
    if d.gap[0] && d.gap[1] && d.gap[2] && d.gap[3] {
        r.pass("T1.3 Four consecutive sector reads (LBA 1-4)");
    } else {
        r.fail("T1.3 Consecutive reads failed");
    }
}

/// Scattered sectors can be read.
pub open spec fn with_check_scattered(v: ReportView, d: &DiskReads) -> ReportView {
    match &d.scattered_mbr {
        Some(b) => {
            if b@[510] == 0x55 && b@[511] == 0xAA && d.scattered@[0] && d.scattered@[1] && d.scattered@[2] && d.scattered@[3] {
                report::passed(v, "T1.4 Scattered LBA reads OK"@)
            } else {
                report::failed(v, "T1.4 Scattered reads failed"@)
            }
        },
        None => report::failed(v, "T1.4 Scattered reads failed"@),
    }
}

fn check_scattered(r: &mut Report, d: &DiskReads)
    requires
        old(r).checks() + 1 <= u32::MAX,
    ensures
        final(r)@ == with_check_scattered(old(r)@, d),
        final(r).checks() <= old(r).checks() + 1,
{
    match &d.scattered_mbr {
        Some(b) => {
            if b[510] == 0x55 && b[511] == 0xAA && d.scattered[0] && d.scattered[1] && d.scattered[2] && d.scattered[3] {
                r.pass("T1.4 Scattered LBA reads OK");
            } else {
                r.fail("T1.4 Scattered reads failed");
            }
        },
        None => {
            r.fail("T1.4 Scattered reads failed");
        },
    }
}

/// Reading the boot sector three times gives the same.
pub open spec fn with_check_boot_three(v: ReportView, d: &DiskReads) -> ReportView {
    match &d.boot_three {
        Some(t) => {
            if (t.a@ == t.b@) && (t.b@ == t.c@) && t.a@[510] == 0x55 && t.a@[511] == 0xAA && (t.a@[0] == 0xEB || t.a@[0] == 0xE9) {
                report::passed(v, "T1.5 Triple read-after-read consistent (LBA 0x3F)"@)
            } else {
                report::failed(v, "T1.5 Triple read consistency failed"@)
            }
        },
        None => report::failed(v, "T1.5 Triple read consistency failed"@),
    }
}

fn check_boot_three(r: &mut Report, d: &DiskReads)
    requires
        old(r).checks() + 1 <= u32::MAX,
    ensures
        final(r)@ == with_check_boot_three(old(r)@, d),
        final(r).checks() <= old(r).checks() + 1,
{
    match &d.boot_three {
        Some(t) => {
            if same_sector(&t.a, &t.b) && same_sector(&t.b, &t.c) && t.a[510] == 0x55 && t.a[511] == 0xAA && (t.a[0] == 0xEB || t.a[0] == 0xE9) {
                r.pass("T1.5 Triple read-after-read consistent (LBA 0x3F)");
            } else {
                r.fail("T1.5 Triple read consistency failed");
            }
        },
        None => {
            r.fail("T1.5 Triple read consistency failed");
        },
    }
}

/// A sector behind the end is refused.
pub open spec fn with_check_past_end(v: ReportView, d: &DiskReads) -> ReportView {
    if d.past_end_refused {
        report::passed(v, "T1.6 Out-of-bounds read returns error"@)
    } else {
        report::failed(v, "T1.6 Out-of-bounds read should fail"@)
    }
}

fn check_past_end(r: &mut Report, d: &DiskReads)
    requires
        old(r).checks() + 1 <= u32::MAX,
    ensures
        final(r)@ == with_check_past_end(old(r)@, d),
        final(r).checks() <= old(r).checks() + 1,
{
    if d.past_end_refused {
        r.pass("T1.6 Out-of-bounds read returns error");
    } else {
        r.fail("T1.6 Out-of-bounds read should fail");
    }
}

/// A buffer of the wrong size is refused.
pub open spec fn with_check_short_buffer(v: ReportView, d: &DiskReads) -> ReportView {
    if d.short_buffer_refused {
        report::passed(v, "T1.7 Wrong buffer size returns error"@)
    } else {
        report::failed(v, "T1.7 Wrong buffer size should fail"@)
    }
}

fn check_short_buffer(r: &mut Report, d: &DiskReads)
    requires
        old(r).checks() + 1 <= u32::MAX,
    ensures
        final(r)@ == with_check_short_buffer(old(r)@, d),
        final(r).checks() <= old(r).checks() + 1,
{
    if d.short_buffer_refused {
        r.pass("T1.7 Wrong buffer size returns error");
    } else {
        r.fail("T1.7 Wrong buffer size should fail");
    }
}

/// Reading the first sector three times gives the same, with a partition.
pub open spec fn with_check_mbr_three(v: ReportView, d: &DiskReads) -> ReportView {
    match &d.mbr_three {
        Some(t) => {
            if (t.a@ == t.b@) && (t.b@ == t.c@) && t.a@[510] == 0x55 && t.a@[511] == 0xAA && t.a@[446] != 0 {
                report::passed(v, "T1.8 MBR triple-read consistent + partition table"@)
            } else {
                report::failed(v, "T1.8 MBR triple-read or structure check failed"@)
            }
        },
        None => report::failed(v, "T1.8 MBR triple-read failed"@),
    }
}

fn check_mbr_three(r: &mut Report, d: &DiskReads)
    requires
        old(r).checks() + 1 <= u32::MAX,
    ensures
        final(r)@ == with_check_mbr_three(old(r)@, d),
        final(r).checks() <= old(r).checks() + 1,
{
    match &d.mbr_three {
        Some(t) => {
            if same_sector(&t.a, &t.b) && same_sector(&t.b, &t.c) && t.a[510] == 0x55 && t.a[511] == 0xAA && t.a[446] != 0 {
                r.pass("T1.8 MBR triple-read consistent + partition table");
            } else {
                r.fail("T1.8 MBR triple-read or structure check failed");
            }
        },
        None => {
            r.fail("T1.8 MBR triple-read failed");
        },
    }
}

/// Reading the boot sector three times gives the same, with valid parameters.
pub open spec fn with_check_bpb_three(v: ReportView, d: &DiskReads) -> ReportView {
    match &d.boot_again_three {
        Some(t) => {
            if (t.a@ == t.b@) && (t.b@ == t.c@) && t.a@[510] == 0x55 && t.a@[511] == 0xAA && t.a@[11] == 0 && t.a@[12] == 2 && t.a@[13] >= 1 && (t.a@[16] == 1 || t.a@[16] == 2) {
                report::passed(v, "T1.9 FAT boot sector triple-read consistent + valid BPB"@)
            } else {
                report::failed(v, "T1.9 FAT boot sector consistency check failed"@)
            }
        },
        None => report::failed(v, "T1.9 FAT boot sector triple-read failed"@),
    }
}

fn check_bpb_three(r: &mut Report, d: &DiskReads)
    requires
        old(r).checks() + 1 <= u32::MAX,
    ensures
        final(r)@ == with_check_bpb_three(old(r)@, d),
        final(r).checks() <= old(r).checks() + 1,
{
    match &d.boot_again_three {
        Some(t) => {
            if same_sector(&t.a, &t.b) && same_sector(&t.b, &t.c) && t.a[510] == 0x55 && t.a[511] == 0xAA && t.a[11] == 0 && t.a[12] == 2 && t.a[13] >= 1 && (t.a[16] == 1 || t.a[16] == 2) {
                r.pass("T1.9 FAT boot sector triple-read consistent + valid BPB");
            } else {
                r.fail("T1.9 FAT boot sector consistency check failed");
            }
        },
        None => {
            r.fail("T1.9 FAT boot sector triple-read failed");
        },
    }
}

/// The checks of the raw disk.
pub open spec fn with_check_disk(v: ReportView, d: &DiskReads) -> ReportView {
    let v = report::put_line(v, "[T] -- Section 1: AHCI Raw Sector I/O --"@);
    let v = with_check_mbr(v, d);
    let v = with_check_boot_sector(v, d);
    let v = with_check_gap(v, d);
    let v = with_check_scattered(v, d);
    let v = with_check_boot_three(v, d);
    let v = with_check_past_end(v, d);
    let v = with_check_short_buffer(v, d);
    let v = with_check_mbr_three(v, d);
    with_check_bpb_three(v, d)
}

fn check_disk(r: &mut Report, d: &DiskReads)
    requires
        old(r).checks() + 9 <= u32::MAX,
    ensures
        final(r)@ == with_check_disk(old(r)@, d),
        final(r).checks() <= old(r).checks() + 9,
{
    r.put_line("[T] -- Section 1: AHCI Raw Sector I/O --");
    check_mbr(r, d);
    check_boot_sector(r, d);
    check_gap(r, d);
    check_scattered(r, d);
    check_boot_three(r, d);
    check_past_end(r, d);
    check_short_buffer(r, d);
    check_mbr_three(r, d);
    check_bpb_three(r, d);
}

/// Mounting twice gives the same file system.
pub open spec fn with_check_remount(v: ReportView, f: &FatReads) -> ReportView {
    let v = report::put_bytes(v, f.remount_said@);
    match &f.remount_name {
        Some(other) => {
            if (other@ == f.name@) {
                report::passed(v, "T2.0b FAT re-mount consistent"@)
            } else {
                report::failed(v, "T2.0b FAT re-mount name mismatch"@)
            }
        },
        None => report::failed(v, "T2.0b FAT re-mount failed"@),
    }
}

fn check_remount(r: &mut Report, f: &FatReads)
    requires
        old(r).checks() + 1 <= u32::MAX,
    ensures
        final(r)@ == with_check_remount(old(r)@, f),
        final(r).checks() <= old(r).checks() + 1,
{
    r.put_bytes(&f.remount_said);
    match &f.remount_name {
        Some(other) => {
            if same(other, &f.name) {
                r.pass("T2.0b FAT re-mount consistent");
            } else {
                r.fail("T2.0b FAT re-mount name mismatch");
            }
        },
        None => {
            r.fail("T2.0b FAT re-mount failed");
        },
    }
}

/// The file system is FAT16.
pub open spec fn with_check_variant(v: ReportView, f: &FatReads) -> ReportView {
    if report::is_name(f.name@, "FAT16"@) {
        report::passed(v, "T2.1 Filesystem variant: FAT16"@)
    } else {
        report::failed(v, "T2.1 Filesystem name mismatch (expected FAT16)"@)
    }
}

fn check_variant(r: &mut Report, f: &FatReads)
    requires
        old(r).checks() + 1 <= u32::MAX,
    ensures
        final(r)@ == with_check_variant(old(r)@, f),
        final(r).checks() <= old(r).checks() + 1,
{
    if equals(&f.name, "FAT16") {
        r.pass("T2.1 Filesystem variant: FAT16");
    } else {
        r.fail("T2.1 Filesystem name mismatch (expected FAT16)");
    }
}

/// The root directory has the expected entries.
pub open spec fn with_check_root(v: ReportView, f: &FatReads) -> ReportView {
    match &f.root {
        Some(l) => {
            if l@.len() >= 3 {
                if report::named(l@, "EFI"@) && report::named(l@, "NvVars"@) && report::named(l@, "startup.nsh"@) {
                    report::passed(v, "T2.2 Root dir: EFI, NvVars, startup.nsh present"@)
                } else {
                    report::failed(v, "T2.2 Root dir missing expected entries"@)
                }
            } else {
                report::failed(v, "T2.2 Root dir has fewer than 3 entries"@)
            }
        },
        None => report::failed(v, "T2.2 Root readdir failed"@),
    }
}

fn check_root(r: &mut Report, f: &FatReads)
    requires
        old(r).checks() + 1 <= u32::MAX,
    ensures
        final(r)@ == with_check_root(old(r)@, f),
        final(r).checks() <= old(r).checks() + 1,
{
    match &f.root {
        Some(l) => {
            if l.len() >= 3 {
                if has_name(l, "EFI") && has_name(l, "NvVars") && has_name(l, "startup.nsh") {
                    r.pass("T2.2 Root dir: EFI, NvVars, startup.nsh present");
                } else {
                    r.fail("T2.2 Root dir missing expected entries");
                }
            } else {
                r.fail("T2.2 Root dir has fewer than 3 entries");
            }
        },
        None => {
            r.fail("T2.2 Root readdir failed");
        },
    }
}

/// Listing the root directory twice gives the same.
pub open spec fn with_check_root_again(v: ReportView, f: &FatReads) -> ReportView {
    match &f.root_again {
        Some((a, b)) => {
            if (report::names(a@) == report::names(b@)) {
                report::passed(v, "T2.2b Root readdir consistent (2 reads)"@)
            } else {
                report::failed(v, "T2.2b Root readdir mismatch between reads"@)
            }
        },
        None => report::failed(v, "T2.2b Root readdir failed on one or both reads"@),
    }
}

fn check_root_again(r: &mut Report, f: &FatReads)
    requires
        old(r).checks() + 1 <= u32::MAX,
    ensures
        final(r)@ == with_check_root_again(old(r)@, f),
        final(r).checks() <= old(r).checks() + 1,
{
    match &f.root_again {
        Some((a, b)) => {
            if same_names(a, b) {
                r.pass("T2.2b Root readdir consistent (2 reads)");
            } else {
                r.fail("T2.2b Root readdir mismatch between reads");
            }
        },
        None => {
            r.fail("T2.2b Root readdir failed on one or both reads");
        },
    }
}

/// The directory `EFI` lists `BOOT`.
pub open spec fn with_check_subdirectory(v: ReportView, f: &FatReads) -> ReportView {
    match &f.efi {
        Some((is_dir, listing)) => {
            if *is_dir {
                match listing {
                    Some(l) => {
                        if report::named(l@, "BOOT"@) {
                            report::passed(v, "T2.3 EFI/BOOT subdirectory found"@)
                        } else {
                            report::failed(v, "T2.3 EFI/BOOT not found in EFI dir"@)
                        }
                    },
                    None => report::failed(v, "T2.3 EFI readdir failed"@),
                }
            } else {
                report::failed(v, "T2.3 EFI is not a directory"@)
            }
        },
        None => report::failed(v, "T2.3 lookup('EFI') failed"@),
    }
}

fn check_subdirectory(r: &mut Report, f: &FatReads)
    requires
        old(r).checks() + 1 <= u32::MAX,
    ensures
        final(r)@ == with_check_subdirectory(old(r)@, f),
        final(r).checks() <= old(r).checks() + 1,
{
    match &f.efi {
        Some((is_dir, listing)) => {
            if *is_dir {
                match listing {
                    Some(l) => {
                        if has_name(l, "BOOT") {
                            r.pass("T2.3 EFI/BOOT subdirectory found");
                        } else {
                            r.fail("T2.3 EFI/BOOT not found in EFI dir");
                        }
                    },
                    None => {
                        r.fail("T2.3 EFI readdir failed");
                    },
                }
            } else {
                r.fail("T2.3 EFI is not a directory");
            }
        },
        None => {
            r.fail("T2.3 lookup('EFI') failed");
        },
    }
}

/// The boot loader is found by its path.
pub open spec fn with_check_deep(v: ReportView, f: &FatReads) -> ReportView {
    match &f.deep {
        DeepWay::Found { is_file, is_dir } => {
            if *is_file && !*is_dir {
                report::passed(v, "T2.4 Deep lookup: EFI/BOOT/BOOTX64.EFI"@)
            } else {
                report::failed(v, "T2.4 BOOTX64.EFI is not a file"@)
            }
        },
        DeepWay::NoFile => report::failed(v, "T2.4 lookup('BOOTX64.EFI') failed"@),
        DeepWay::NoDirectory => report::failed(v, "T2.4 lookup('BOOT') failed"@),
        DeepWay::NoTop => report::failed(v, "T2.4 lookup('EFI') failed"@),
    }
}

fn check_deep(r: &mut Report, f: &FatReads)
    requires
        old(r).checks() + 1 <= u32::MAX,
    ensures
        final(r)@ == with_check_deep(old(r)@, f),
        final(r).checks() <= old(r).checks() + 1,
{
    match &f.deep {
        DeepWay::Found { is_file, is_dir } => {
            if *is_file && !*is_dir {
                r.pass("T2.4 Deep lookup: EFI/BOOT/BOOTX64.EFI");
            } else {
                r.fail("T2.4 BOOTX64.EFI is not a file");
            }
        },
        DeepWay::NoFile => {
            r.fail("T2.4 lookup('BOOTX64.EFI') failed");
        },
        DeepWay::NoDirectory => {
            r.fail("T2.4 lookup('BOOT') failed");
        },
        DeepWay::NoTop => {
            r.fail("T2.4 lookup('EFI') failed");
        },
    }
}

/// The boot loader reads the same twice.
pub open spec fn with_check_loader(v: ReportView, f: &FatReads) -> ReportView {
    match &f.loader {
        FileWay::Read { data, again } => {
            if data@.len() > 0 {
                match again {
                    Some(other) => {
                        if report::mz_magic(data@) && (data@ == other@) {
                            report::passed(v, "T2.5 Read BOOTX64.EFI: MZ + consistent"@)
                        } else if !(data@ == other@) {
                            report::failed(v, "T2.5 BOOTX64.EFI re-read mismatch"@)
                        } else {
                            report::passed(v, "T2.5 Read BOOTX64.EFI non-zero"@)
                        }
                    },
                    None => {
                        if report::mz_magic(data@) {
                            report::passed(v, "T2.5 Read BOOTX64.EFI: MZ header OK"@)
                        } else {
                            report::passed(v, "T2.5 Read BOOTX64.EFI non-zero"@)
                        }
                    },
                }
            } else {
                report::failed(v, "T2.5 BOOTX64.EFI read 0 bytes"@)
            }
        },
        FileWay::NotOpened => report::failed(v, "T2.5 open() on BOOTX64.EFI inode failed"@),
        FileWay::NoFile => report::failed(v, "T2.5 lookup('BOOTX64.EFI') failed"@),
        FileWay::NoDirectory => report::failed(v, "T2.5 lookup('BOOT') failed"@),
        FileWay::NoTop => report::failed(v, "T2.5 lookup('EFI') failed"@),
    }
}

fn check_loader(r: &mut Report, f: &FatReads)
    requires
        old(r).checks() + 1 <= u32::MAX,
    ensures
        final(r)@ == with_check_loader(old(r)@, f),
        final(r).checks() <= old(r).checks() + 1,
{
    match &f.loader {
        FileWay::Read { data, again } => {
            if data.len() > 0 {
                match again {
                    Some(other) => {
                        if is_mz(data) && same(data, other) {
                            r.pass("T2.5 Read BOOTX64.EFI: MZ + consistent");
                        } else if !same(data, other) {
                            r.fail("T2.5 BOOTX64.EFI re-read mismatch");
                        } else {
                            r.pass("T2.5 Read BOOTX64.EFI non-zero");
                        }
                    },
                    None => {
                        if is_mz(data) {
                            r.pass("T2.5 Read BOOTX64.EFI: MZ header OK");
                        } else {
                            r.pass("T2.5 Read BOOTX64.EFI non-zero");
                        }
                    },
                }
            } else {
                r.fail("T2.5 BOOTX64.EFI read 0 bytes");
            }
        },
        FileWay::NotOpened => {
            r.fail("T2.5 open() on BOOTX64.EFI inode failed");
        },
        FileWay::NoFile => {
            r.fail("T2.5 lookup('BOOTX64.EFI') failed");
        },
        FileWay::NoDirectory => {
            r.fail("T2.5 lookup('BOOT') failed");
        },
        FileWay::NoTop => {
            r.fail("T2.5 lookup('EFI') failed");
        },
    }
}

/// The kernel reads the same twice.
pub open spec fn with_check_kernel(v: ReportView, f: &FatReads) -> ReportView {
    match &f.kernel {
        FileWay::Read { data, again } => {
            if data@.len() > 0 {
                match again {
                    Some(other) => {
                        if report::elf_magic(data@) && (data@ == other@) {
                            report::passed(v, "T2.6 Read kernel.elf: ELF header + consistent"@)
                        } else if !(data@ == other@) {
                            report::failed(v, "T2.6 kernel.elf re-read mismatch"@)
                        } else {
                            report::passed(v, "T2.6 Read kernel.elf non-zero"@)
                        }
                    },
                    None => {
                        if report::elf_magic(data@) {
                            report::passed(v, "T2.6 Read kernel.elf: ELF header OK"@)
                        } else {
                            report::passed(v, "T2.6 Read kernel.elf non-zero"@)
                        }
                    },
                }
            } else {
                report::failed(v, "T2.6 kernel.elf read 0 bytes"@)
            }
        },
        FileWay::NotOpened => report::failed(v, "T2.6 open() on kernel.elf failed"@),
        FileWay::NoFile => report::failed(v, "T2.6 lookup('kernel.elf') failed"@),
        FileWay::NoDirectory => report::failed(v, "T2.6 lookup('INDOMINUS') failed"@),
        FileWay::NoTop => report::failed(v, "T2.6 lookup('EFI') failed"@),
    }
}

fn check_kernel(r: &mut Report, f: &FatReads)
    requires
        old(r).checks() + 1 <= u32::MAX,
    ensures
        final(r)@ == with_check_kernel(old(r)@, f),
        final(r).checks() <= old(r).checks() + 1,
{
    match &f.kernel {
        FileWay::Read { data, again } => {
            if data.len() > 0 {
                match again {
                    Some(other) => {
                        if is_elf(data) && same(data, other) {
                            r.pass("T2.6 Read kernel.elf: ELF header + consistent");
                        } else if !same(data, other) {
                            r.fail("T2.6 kernel.elf re-read mismatch");
                        } else {
                            r.pass("T2.6 Read kernel.elf non-zero");
                        }
                    },
                    None => {
                        if is_elf(data) {
                            r.pass("T2.6 Read kernel.elf: ELF header OK");
                        } else {
                            r.pass("T2.6 Read kernel.elf non-zero");
                        }
                    },
                }
            } else {
                r.fail("T2.6 kernel.elf read 0 bytes");
            }
        },
        FileWay::NotOpened => {
            r.fail("T2.6 open() on kernel.elf failed");
        },
        FileWay::NoFile => {
            r.fail("T2.6 lookup('kernel.elf') failed");
        },
        FileWay::NoDirectory => {
            r.fail("T2.6 lookup('INDOMINUS') failed");
        },
        FileWay::NoTop => {
            r.fail("T2.6 lookup('EFI') failed");
        },
    }
}

/// The checks of the file system.
pub open spec fn with_check_fat(v: ReportView, f: &FatReads) -> ReportView {
    let v = report::passed(v, "T2.0 FAT16 filesystem mounted"@);
    let v = with_check_remount(v, f);
    let v = with_check_variant(v, f);
    let v = with_check_root(v, f);
    let v = with_check_root_again(v, f);
    let v = with_check_subdirectory(v, f);
    let v = with_check_deep(v, f);
    let v = with_check_loader(v, f);
    with_check_kernel(v, f)
}

fn check_fat(r: &mut Report, f: &FatReads)
    requires
        old(r).checks() + 9 <= u32::MAX,
    ensures
        final(r)@ == with_check_fat(old(r)@, f),
        final(r).checks() <= old(r).checks() + 9,
{
    r.pass("T2.0 FAT16 filesystem mounted");
    check_remount(r, f);
    check_variant(r, f);
    check_root(r, f);
    check_root_again(r, f);
    check_subdirectory(r, f);
    check_deep(r, f);
    check_loader(r, f);
    check_kernel(r, f);
}

/// The file system can be mounted.
pub open spec fn with_check_mount(v: ReportView, t: &TreeReads) -> ReportView {
    let v = report::put_bytes(v, t.said@);
    if t.mounted {
        report::passed(v, "T3.0 FAT16 mounted at /disk via VFS"@)
    } else {
        report::failed(v, "T3.0 Could not create FAT16 for VFS mount"@)
    }
}

fn check_mount(r: &mut Report, t: &TreeReads)
    requires
        old(r).checks() + 1 <= u32::MAX,
    ensures
        final(r)@ == with_check_mount(old(r)@, t),
        final(r).checks() <= old(r).checks() + 1,
{
    r.put_bytes(&t.said);
    if t.mounted {
        r.pass("T3.0 FAT16 mounted at /disk via VFS");
    } else {
        r.fail("T3.0 Could not create FAT16 for VFS mount");
    }
}

/// The mount point is a directory.
pub open spec fn with_check_resolve_disk(v: ReportView, t: &TreeReads) -> ReportView {
    match t.disk {
        Some(is_dir) => {
            if is_dir {
                report::passed(v, "T3.1 VFS resolve('/disk') -> directory"@)
            } else {
                report::failed(v, "T3.1 /disk is not a directory"@)
            }
        },
        None => report::failed(v, "T3.1 VFS resolve('/disk') failed"@),
    }
}

fn check_resolve_disk(r: &mut Report, t: &TreeReads)
    requires
        old(r).checks() + 1 <= u32::MAX,
    ensures
        final(r)@ == with_check_resolve_disk(old(r)@, t),
        final(r).checks() <= old(r).checks() + 1,
{
    match t.disk {
        Some(is_dir) => {
            if is_dir {
                r.pass("T3.1 VFS resolve('/disk') -> directory");
            } else {
                r.fail("T3.1 /disk is not a directory");
            }
        },
        None => {
            r.fail("T3.1 VFS resolve('/disk') failed");
        },
    }
}

/// A directory below the mount point is found.
pub open spec fn with_check_resolve_efi(v: ReportView, t: &TreeReads) -> ReportView {
    match t.efi {
        Some(is_dir) => {
            if is_dir {
                report::passed(v, "T3.2 VFS resolve('/disk/EFI') -> directory"@)
            } else {
                report::failed(v, "T3.2 /disk/EFI is not a directory"@)
            }
        },
        None => report::failed(v, "T3.2 VFS resolve('/disk/EFI') failed"@),
    }
}

fn check_resolve_efi(r: &mut Report, t: &TreeReads)
    requires
        old(r).checks() + 1 <= u32::MAX,
    ensures
        final(r)@ == with_check_resolve_efi(old(r)@, t),
        final(r).checks() <= old(r).checks() + 1,
{
    match t.efi {
        Some(is_dir) => {
            if is_dir {
                r.pass("T3.2 VFS resolve('/disk/EFI') -> directory");
            } else {
                r.fail("T3.2 /disk/EFI is not a directory");
            }
        },
        None => {
            r.fail("T3.2 VFS resolve('/disk/EFI') failed");
        },
    }
}

/// A file reads the same twice.
pub open spec fn with_check_script(v: ReportView, t: &TreeReads) -> ReportView {
    match &t.script {
        Some((a, b)) => {
            if a@.len() > 0 && (a@ == b@) {
                report::passed(v, "T3.3 VFS read startup.nsh: consistent"@)
            } else if !(a@ == b@) {
                report::failed(v, "T3.3 startup.nsh re-read mismatch"@)
            } else {
                report::failed(v, "T3.3 startup.nsh read 0 bytes"@)
            }
        },
        None => report::failed(v, "T3.3 VFS read_file('/disk/startup.nsh') failed"@),
    }
}

fn check_script(r: &mut Report, t: &TreeReads)
    requires
        old(r).checks() + 1 <= u32::MAX,
    ensures
        final(r)@ == with_check_script(old(r)@, t),
        final(r).checks() <= old(r).checks() + 1,
{
    match &t.script {
        Some((a, b)) => {
            if a.len() > 0 && same(a, b) {
                r.pass("T3.3 VFS read startup.nsh: consistent");
            } else if !same(a, b) {
                r.fail("T3.3 startup.nsh re-read mismatch");
            } else {
                r.fail("T3.3 startup.nsh read 0 bytes");
            }
        },
        None => {
            r.fail("T3.3 VFS read_file('/disk/startup.nsh') failed");
        },
    }
}

/// The mount point lists the expected entries.
pub open spec fn with_check_listing(v: ReportView, t: &TreeReads) -> ReportView {
    match &t.listing {
        Listing::Read { data } => {
            if data@.len() > 0 {
                if report::holds(data@, "EFI"@) && report::holds(data@, "startup"@) {
                    report::passed(v, "T3.4 VFS readdir('/disk'): EFI + startup found"@)
                } else {
                    report::failed(v, "T3.4 VFS readdir missing expected entries"@)
                }
            } else {
                report::failed(v, "T3.4 VFS readdir('/disk') returned 0 bytes"@)
            }
        },
        Listing::NotRead => report::failed(v, "T3.4 VFS readdir('/disk') read failed"@),
        Listing::NotOpened => report::failed(v, "T3.4 VFS open('/disk') for readdir failed"@),
    }
}

fn check_listing(r: &mut Report, t: &TreeReads)
    requires
        old(r).checks() + 1 <= u32::MAX,
    ensures
        final(r)@ == with_check_listing(old(r)@, t),
        final(r).checks() <= old(r).checks() + 1,
{
    match &t.listing {
        Listing::Read { data } => {
            if data.len() > 0 {
                if has_text(data, "EFI") && has_text(data, "startup") {
                    r.pass("T3.4 VFS readdir('/disk'): EFI + startup found");
                } else {
                    r.fail("T3.4 VFS readdir missing expected entries");
                }
            } else {
                r.fail("T3.4 VFS readdir('/disk') returned 0 bytes");
            }
        },
        Listing::NotRead => {
            r.fail("T3.4 VFS readdir('/disk') read failed");
        },
        Listing::NotOpened => {
            r.fail("T3.4 VFS open('/disk') for readdir failed");
        },
    }
}

/// The boot loader reads the same twice through the file tree.
pub open spec fn with_check_tree_loader(v: ReportView, t: &TreeReads) -> ReportView {
    match &t.loader {
        Some((a, b)) => {
            if a@.len() > 0 && (a@ == b@) {
                if report::mz_magic(a@) {
                    report::passed(v, "T3.5 VFS read_file: BOOTX64.EFI consistent + MZ"@)
                } else {
                    report::passed(v, "T3.5 VFS read_file: BOOTX64.EFI consistent"@)
                }
            } else if !(a@ == b@) {
                report::failed(v, "T3.5 VFS read_file re-read mismatch"@)
            } else {
                report::failed(v, "T3.5 VFS read_file returned 0 bytes"@)
            }
        },
        None => report::failed(v, "T3.5 VFS read_file('/disk/EFI/BOOT/BOOTX64.EFI') failed"@),
    }
}

fn check_tree_loader(r: &mut Report, t: &TreeReads)
    requires
        old(r).checks() + 1 <= u32::MAX,
    ensures
        final(r)@ == with_check_tree_loader(old(r)@, t),
        final(r).checks() <= old(r).checks() + 1,
{
    match &t.loader {
        Some((a, b)) => {
            if a.len() > 0 && same(a, b) {
                if is_mz(a) {
                    r.pass("T3.5 VFS read_file: BOOTX64.EFI consistent + MZ");
                } else {
                    r.pass("T3.5 VFS read_file: BOOTX64.EFI consistent");
                }
            } else if !same(a, b) {
                r.fail("T3.5 VFS read_file re-read mismatch");
            } else {
                r.fail("T3.5 VFS read_file returned 0 bytes");
            }
        },
        None => {
            r.fail("T3.5 VFS read_file('/disk/EFI/BOOT/BOOTX64.EFI') failed");
        },
    }
}

/// A missing file cannot be opened.
pub open spec fn with_check_missing(v: ReportView, t: &TreeReads) -> ReportView {
    match t.missing {
        None => report::failed(v, "T3.6 open non-existent should return error"@),
        Some(VfsError::NotFound) => report::passed(v, "T3.6 open non-existent -> NotFound"@),
        Some(_) => report::passed(v, "T3.6 open non-existent -> error"@),
    }
}

fn check_missing(r: &mut Report, t: &TreeReads)
    requires
        old(r).checks() + 1 <= u32::MAX,
    ensures
        final(r)@ == with_check_missing(old(r)@, t),
        final(r).checks() <= old(r).checks() + 1,
{
    match t.missing {
        None => {
            r.fail("T3.6 open non-existent should return error");
        },
        Some(VfsError::NotFound) => {
            r.pass("T3.6 open non-existent -> NotFound");
        },
        Some(_) => {
            r.pass("T3.6 open non-existent -> error");
        },
    }
}

/// A path that climbs out is refused.
pub open spec fn with_check_traversal(v: ReportView, t: &TreeReads) -> ReportView {
    if t.traversal_resolved {
        report::failed(v, "T3.7 VFS should reject ../ paths"@)
    } else {
        report::passed(v, "T3.7 VFS rejects malformed paths"@)
    }
}

fn check_traversal(r: &mut Report, t: &TreeReads)
    requires
        old(r).checks() + 1 <= u32::MAX,
    ensures
        final(r)@ == with_check_traversal(old(r)@, t),
        final(r).checks() <= old(r).checks() + 1,
{
    if t.traversal_resolved {
        r.fail("T3.7 VFS should reject ../ paths");
    } else {
        r.pass("T3.7 VFS rejects malformed paths");
    }
}

/// The checks of the file tree.
pub open spec fn with_check_tree(v: ReportView, t: &TreeReads) -> ReportView {
    let v = report::put_line(v, "[T] -- Section 3: VFS Integration --"@);
    let v = with_check_mount(v, t);
    let v = with_check_resolve_disk(v, t);
    let v = with_check_resolve_efi(v, t);
    let v = with_check_script(v, t);
    let v = with_check_listing(v, t);
    let v = with_check_tree_loader(v, t);
    let v = with_check_missing(v, t);
    with_check_traversal(v, t)
}

fn check_tree(r: &mut Report, t: &TreeReads)
    requires
        old(r).checks() + 8 <= u32::MAX,
    ensures
        final(r)@ == with_check_tree(old(r)@, t),
        final(r).checks() <= old(r).checks() + 8,
{
    r.put_line("[T] -- Section 3: VFS Integration --");
    check_mount(r, t);
    check_resolve_disk(r, t);
    check_resolve_efi(r, t);
    check_script(r, t);
    check_listing(r, t);
    check_tree_loader(r, t);
    check_missing(r, t);
    check_traversal(r, t);
}

/// The checks of the whole storage, from the disk to the file tree, up to the counts.
/// Without a disk there is nothing else; without a file system, `fat` is the error number
/// of the mount.
pub open spec fn with_storage(
    v: ReportView,
    disk: Option<DiskReads>,
    fat: Result<FatReads, FailedMount>,
    tree: &TreeReads,
) -> ReportView {
    let v = report::with_title(v, "[T] Phase 9.4: End-to-End Verification"@);
    match disk {
        None => {
            let v = report::put_line(v, "[T] -- Section 1: AHCI Raw Sector I/O --"@);
            let v = report::failed(v, "No block device 0"@);
            report::put_line(v, "[T] === ABORT: No AHCI disk ==="@)
        },
        Some(d) => {
            let v = with_check_disk(v, &d);
            let v = report::put_line(v, "[T] -- Section 2: FAT16 Filesystem --"@);
            match fat {
                Err(e) => {
                    let v = report::put_bytes(v, e.said@);
                    let v = report::failed(v, "T2.0 FAT16 mount failed"@);
                    let v = report::put(v, "[T]      errno="@);
                    let v = report::put_end(report::put_hex(v, e.errno as int));
                    report::put_line(v, "[T] === ABORT: FAT mount failed ==="@)
                },
                Ok(f) => {
                    let v = report::put_bytes(v, f.said@);
                    let v = with_check_tree(with_check_fat(v, &f), tree);
                    let v = report::put_line(v, "[T] -- Section 4: Regression Tests --"@);
                    report::with_counts(v, "[T]   Phase 9.4 standalone: "@)
                },
            }
        },
    }
}

/// Writes the report on the storage, by what its parts gave. Whether it came to its end.
pub fn storage_report(
    r: &mut Report,
    disk: &Option<DiskReads>,
    fat: &Result<FatReads, FailedMount>,
    tree: &TreeReads,
) -> (complete: bool)
    requires
        old(r).checks() + 30 <= u32::MAX,
    ensures
        final(r)@ == with_storage(old(r)@, *disk, *fat, tree),
        complete == (disk is Some && fat is Ok),
        final(r).checks() <= old(r).checks() + 30,
{
    title(r, "[T] Phase 9.4: End-to-End Verification");
    match disk {
        None => {
            r.put_line("[T] -- Section 1: AHCI Raw Sector I/O --");
            r.fail("No block device 0");
            r.put_line("[T] === ABORT: No AHCI disk ===");
            return false;
        },
        Some(d) => {
            check_disk(r, d);
        },
    }
    r.put_line("[T] -- Section 2: FAT16 Filesystem --");
    match fat {
        Err(e) => {
            r.put_bytes(&e.said);
            r.fail("T2.0 FAT16 mount failed");
            r.put("[T]      errno=");
            r.put_hex(e.errno);
            r.put_end();
            r.put_line("[T] === ABORT: FAT mount failed ===");
            return false;
        },
        Ok(f) => {
            r.put_bytes(&f.said);
            check_fat(r, f);
        },
    }
    check_tree(r, tree);
    r.put_line("[T] -- Section 4: Regression Tests --");
    counts(r, "[T]   Phase 9.4 standalone: ");
    true
}

/// The end of the report on the storage.
pub open spec fn with_storage_summary(v: ReportView) -> ReportView {
    report::with_summary(
        v,
        "[T] Phase 9.4 standalone: "@,
        "[T] === ALL PHASE 9.4 TESTS PASSED ==="@,
        "[T] === PHASE 9.4 HAS FAILURES ==="@,
    )
}

pub fn storage_summary(r: &mut Report)
    ensures
        final(r)@ == with_storage_summary(old(r)@),
        final(r).checks() == old(r).checks(),
{
    summary(
        r,
        "[T] Phase 9.4 standalone: ",
        "[T] === ALL PHASE 9.4 TESTS PASSED ===",
        "[T] === PHASE 9.4 HAS FAILURES ===",
    );
}

/// What the short repetition of the storage checks looks at.
pub struct ShortReads {
    pub mounted: bool,
    /// What was said when it was mounted.
    pub said: Vec<u8>,
    pub disk: Option<bool>,
    pub script: Option<Vec<u8>>,
    pub missing_refused: bool,
}

/// The file system can be mounted.
pub open spec fn with_short_mount(v: ReportView, s: &ShortReads) -> ReportView {
    let v = report::put_bytes(v, s.said@);
    if s.mounted {
        report::passed(v, "T3.0 FAT16 mounted at /disk via VFS"@)
    } else {
        report::failed(v, "T3.0 Could not create FAT16 for VFS mount"@)
    }
}

fn short_mount(r: &mut Report, s: &ShortReads)
    requires
        old(r).checks() + 1 <= u32::MAX,
    ensures
        final(r)@ == with_short_mount(old(r)@, s),
        final(r).checks() <= old(r).checks() + 1,
{
    r.put_bytes(&s.said);
    if s.mounted {
        r.pass("T3.0 FAT16 mounted at /disk via VFS");
    } else {
        r.fail("T3.0 Could not create FAT16 for VFS mount");
    }
}

/// The mount point is a directory.
pub open spec fn with_short_resolve(v: ReportView, s: &ShortReads) -> ReportView {
    match s.disk {
        Some(is_dir) => {
            if is_dir {
                report::passed(v, "T3.1 VFS resolve('/disk') -> directory"@)
            } else {
                report::failed(v, "T3.1 /disk is not a directory"@)
            }
        },
        None => report::failed(v, "T3.1 VFS resolve('/disk') failed"@),
    }
}

fn short_resolve(r: &mut Report, s: &ShortReads)
    requires
        old(r).checks() + 1 <= u32::MAX,
    ensures
        final(r)@ == with_short_resolve(old(r)@, s),
        final(r).checks() <= old(r).checks() + 1,
{
    match s.disk {
        Some(is_dir) => {
            if is_dir {
                r.pass("T3.1 VFS resolve('/disk') -> directory");
            } else {
                r.fail("T3.1 /disk is not a directory");
            }
        },
        None => {
            r.fail("T3.1 VFS resolve('/disk') failed");
        },
    }
}

/// A file can be read.
pub open spec fn with_short_script(v: ReportView, s: &ShortReads) -> ReportView {
    match &s.script {
        Some(data) => {
            if data@.len() > 0 {
                report::passed(v, "T3.3 VFS read startup.nsh"@)
            } else {
                report::failed(v, "T3.3 VFS read startup.nsh failed"@)
            }
        },
        None => report::failed(v, "T3.3 VFS read startup.nsh failed"@),
    }
}

fn short_script(r: &mut Report, s: &ShortReads)
    requires
        old(r).checks() + 1 <= u32::MAX,
    ensures
        final(r)@ == with_short_script(old(r)@, s),
        final(r).checks() <= old(r).checks() + 1,
{
    match &s.script {
        Some(data) => {
            if data.len() > 0 {
                r.pass("T3.3 VFS read startup.nsh");
            } else {
                r.fail("T3.3 VFS read startup.nsh failed");
            }
        },
        None => {
            r.fail("T3.3 VFS read startup.nsh failed");
        },
    }
}

/// A missing file cannot be opened.
pub open spec fn with_short_missing(v: ReportView, s: &ShortReads) -> ReportView {
    if s.missing_refused {
        report::passed(v, "T3.6 open non-existent → error"@)
    } else {
        report::failed(v, "T3.6 open non-existent should fail"@)
    }
}

fn short_missing(r: &mut Report, s: &ShortReads)
    requires
        old(r).checks() + 1 <= u32::MAX,
    ensures
        final(r)@ == with_short_missing(old(r)@, s),
        final(r).checks() <= old(r).checks() + 1,
{
    if s.missing_refused {
        r.pass("T3.6 open non-existent → error");
    } else {
        r.fail("T3.6 open non-existent should fail");
    }
}

/// The short repetition of the storage checks, and whether all passed.
pub open spec fn with_short(v: ReportView, s: &ShortReads) -> ReportView {
    let t1 = with_short_resolve(with_short_mount(v, s), s);
    let t2 = with_short_missing(with_short_script(t1, s), s);
    if t2.failed == 0 {
        report::put_line(t2, "[T]   Phase 9.4 regression: ALL PASSED"@)
    } else {
        report::with_counts(t2, "[T]   Phase 9.4 regression: "@)
    }
}

/// Runs the storage checks once more, without the repetitions.
pub fn phase94_fat32_init_standalone(r: &mut Report, s: &ShortReads)
    requires
        old(r).checks() + 4 <= u32::MAX,
    ensures
        final(r)@ == with_short(old(r)@, s),
        final(r).checks() <= old(r).checks() + 4,
{
    short_mount(r, s);
    short_resolve(r, s);
    short_script(r, s);
    short_missing(r, s);
    if r.failed == 0 {
        r.put_line("[T]   Phase 9.4 regression: ALL PASSED");
    } else {
        counts(r, "[T]   Phase 9.4 regression: ");
    }
}

} // verus!
