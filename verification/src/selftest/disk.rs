//! Checks of block devices.
use vstd::prelude::*;

use crate::block;
use crate::block::ramdisk::RamDisk;
use crate::block::registry::{get_device, register_device, unregister_device, BlockDeviceRegistry};
use crate::block::{BlockDevice, BlockError};
use crate::selftest::report;
use crate::selftest::report::{same, starts_with, Report, ReportView};
use crate::fat32::table;
use crate::fat32::table::read_block;
use crate::selftest::fat::{DiskReads, Triple};
use crate::serial;

verus! {

/// The byte at `i` of the pattern that is written to one sector.
pub open spec fn pattern(i: int) -> u8 {
    (i as u64 ^ 0xAA) as u8
}

/// The pattern that is written to one sector.
pub open spec fn pattern_bytes() -> Seq<u8> {
    Seq::new(512, |i: int| pattern(i))
}

fn pattern_sector() -> (r: [u8; 512])
    ensures
        r@ == pattern_bytes(),
{
    let mut buf: [u8; 512] = [0u8; 512];
    let mut i: usize = 0;
    while i < 512
        invariant
            i <= 512,
            forall|k: int| 0 <= k < i ==> #[trigger] buf@[k] == pattern(k),
        decreases 512 - i,
    {
        buf[i] = (i as u64 ^ 0xAA) as u8;
        i = i + 1;
    }
    assert(buf@ =~= pattern_bytes());
    buf
}

/// The byte at `i` of the pattern for each sector.
pub open spec fn numbered(sector: int, i: int) -> u8 {
    ((sector * 512 + i) % 256) as u8
}

pub open spec fn numbered_bytes(sector: int) -> Seq<u8> {
    Seq::new(512, |i: int| numbered(sector, i))
}

fn numbered_sector(sector: u64) -> (r: [u8; 512])
    requires
        sector < 8,
    ensures
        r@ == numbered_bytes(sector as int),
{
    let mut buf: [u8; 512] = [0u8; 512];
    let mut i: usize = 0;
    while i < 512
        invariant
            i <= 512,
            sector < 8,
            forall|k: int| 0 <= k < i ==> #[trigger] buf@[k] == numbered(sector as int, k),
        decreases 512 - i,
    {
        buf[i] = ((sector * 512 + i as u64) % 256) as u8;
        i = i + 1;
    }
    assert(buf@ =~= numbered_bytes(sector as int));
    buf
}

/// Whether a disk has eight sectors of 512 bytes, and the name of a RAM disk.
fn has_properties(disk: &RamDisk) -> (r: bool)
    requires
        disk.wf(),
    ensures
        r == (disk.sector_bytes() == 512 && disk.sectors().len() == 8),
{
    let name: &str = disk.name();
    assert(name@ == "ramdisk"@);
    disk.sector_size() == 512 && disk.total_sectors() == 8 && same(
        name.as_bytes(),
        "ramdisk".as_bytes(),
    )
}

/// Sectors with one of them written, if the disk has it and its size is that of the data.
pub open spec fn put_sector(
    sectors: Seq<Seq<u8>>,
    sector_bytes: int,
    lba: int,
    data: Seq<u8>,
) -> Seq<Seq<u8>> {
    if sector_bytes == data.len() && lba < sectors.len() {
        sectors.update(lba, data)
    } else {
        sectors
    }
}

/// Writes a pattern to a sector. Whether it is read back: on a disk with that sector, and
/// with sectors of 512 bytes, it is.
fn keeps_sector(disk: &mut RamDisk) -> (r: bool)
    requires
        old(disk).wf(),
    ensures
        final(disk).wf(),
        final(disk).sector_bytes() == old(disk).sector_bytes(),
        final(disk).sectors() == put_sector(
            old(disk).sectors(),
            old(disk).sector_bytes(),
            3,
            pattern_bytes(),
        ),
        r == (old(disk).sector_bytes() == 512 && old(disk).sectors().len() > 3),
{
    let data: [u8; 512] = pattern_sector();
    if disk.write_sector(3, &data).is_err() {
        return false;
    }
    let mut buf: [u8; 512] = [0u8; 512];
    if disk.read_sector(3, &mut buf).is_err() {
        return false;
    }
    same(&data, &buf)
}

/// The first `n` sectors with their numbered patterns, and the others as they were.
pub open spec fn numbered_upto(sectors: Seq<Seq<u8>>, n: int) -> Seq<Seq<u8>> {
    Seq::new(
        sectors.len(),
        |i: int|
            if i < n {
                numbered_bytes(i)
            } else {
                sectors[i]
            },
    )
}

/// Writes a pattern of its own to each of eight sectors, as far as the disk has them.
/// Whether all are read back: on a disk with eight sectors or more of 512 bytes, they are.
fn keeps_all(disk: &mut RamDisk) -> (r: bool)
    requires
        old(disk).wf(),
    ensures
        final(disk).wf(),
        final(disk).sector_bytes() == old(disk).sector_bytes(),
        final(disk).sectors() == if old(disk).sector_bytes() == 512 {
            numbered_upto(old(disk).sectors(), 8)
        } else {
            old(disk).sectors()
        },
        r == (old(disk).sector_bytes() == 512 && old(disk).sectors().len() >= 8),
{
    let ghost before = disk.sectors();
    let ghost size = disk.sector_bytes();
    assert(before =~= numbered_upto(before, 0));
    let mut sector: u64 = 0;
    while sector < 8
        invariant
            sector <= 8,
            disk.wf(),
            disk.sector_bytes() == size,
            before == old(disk).sectors(),
            size == old(disk).sector_bytes(),
            before == numbered_upto(before, 0),
            disk.sectors() == numbered_upto(before, sector as int),
            sector > 0 ==> size == 512,
            sector <= before.len(),
        decreases 8 - sector,
    {
        let data: [u8; 512] = numbered_sector(sector);
        if disk.write_sector(sector, &data).is_err() {
            assert(size == 512 ==> disk.sectors() =~= numbered_upto(before, 8));
            return false;
        }
        assert(disk.sectors() =~= numbered_upto(before, sector + 1));
        sector = sector + 1;
    }
    sector = 0;
    while sector < 8
        invariant
            sector <= 8,
            disk.wf(),
            disk.sector_bytes() == size,
            before == old(disk).sectors(),
            size == old(disk).sector_bytes(),
            disk.sectors() == numbered_upto(before, 8),
            size == 512,
            before.len() >= 8,
        decreases 8 - sector,
    {
        let mut buf: [u8; 512] = [0u8; 512];
        if disk.read_sector(sector, &mut buf).is_err() {
            return false;
        }
        let expected: [u8; 512] = numbered_sector(sector);
        if !same(&buf, &expected) {
            return false;
        }
        sector = sector + 1;
    }
    true
}

/// Reads sector 8 and writes sector 100. Whether both are refused as out of bounds: on a
/// disk with sectors of 512 bytes, and with no more than eight of them, they are.
fn refuses_far_sectors(disk: &mut RamDisk) -> (r: bool)
    requires
        old(disk).wf(),
    ensures
        final(disk).wf(),
        final(disk).sector_bytes() == old(disk).sector_bytes(),
        final(disk).sectors() == put_sector(
            old(disk).sectors(),
            old(disk).sector_bytes(),
            100,
            pattern_bytes(),
        ),
        r == (old(disk).sector_bytes() == 512 && old(disk).sectors().len() <= 8),
{
    let mut buf: [u8; 512] = [0u8; 512];
    let data: [u8; 512] = pattern_sector();
    let read: bool = match disk.read_sector(8, &mut buf) {
        Err(BlockError::OutOfBounds) => true,
        _ => false,
    };
    let written: bool = match disk.write_sector(100, &data) {
        Err(BlockError::OutOfBounds) => true,
        _ => false,
    };
    read && written
}

/// Reads into buffers of 256 and of 1024 bytes. Whether both are refused for their size:
/// on a disk whose sectors have neither size, they are.
fn refuses_odd_buffers(disk: &RamDisk) -> (r: bool)
    requires
        disk.wf(),
    ensures
        r == (disk.sector_bytes() != 256 && disk.sector_bytes() != 1024),
{
    let mut small: [u8; 256] = [0u8; 256];
    let low: bool = match disk.read_sector(0, &mut small) {
        Err(BlockError::InvalidBufferSize) => true,
        _ => false,
    };
    let mut big: [u8; 1024] = [0u8; 1024];
    let high: bool = match disk.read_sector(0, &mut big) {
        Err(BlockError::InvalidBufferSize) => true,
        _ => false,
    };
    low && high
}

/// The first free place of a registry.
pub open spec fn first_free<D>(slots: Seq<Option<D>>, from: int) -> int
    decreases slots.len() - from,
{
    if from >= slots.len() || slots[from] is None {
        from
    } else {
        first_free(slots, from + 1)
    }
}

proof fn lemma_first_free<D>(slots: Seq<Option<D>>, from: int, id: int)
    requires
        0 <= from <= id < slots.len(),
        slots[id] is None,
        forall|k: int| from <= k < id ==> slots[k] is Some,
    ensures
        first_free(slots, from) == id,
    decreases id - from,
{
    if from < id {
        lemma_first_free(slots, from + 1, id);
    }
}

/// The report on the RAM disk, which gets the given ID: every check passes.
pub open spec fn with_ram_test(v: ReportView, id: usize) -> ReportView {
    let v = report::put_line(v, "[TEST] Phase 9.1: Block device abstraction"@);
    let v = ReportView { text: block::ramdisk::with_disk_text(v.text, 8, 512), ..v };
    let v = report::put_line(v, "[TEST]   Device properties OK"@);
    let v = ReportView { text: block::registry::with_device_text(v.text, id, "ramdisk"@), ..v };
    let v = report::put_line(v, "[TEST]   Registry OK"@);
    let v = report::put_line(v, "[TEST]   Read/write verify OK"@);
    let v = report::put_line(v, "[TEST]   Multi-sector OK"@);
    let v = report::put_line(v, "[TEST]   Out-of-bounds check OK"@);
    let v = report::put_line(v, "[TEST]   Buffer size check OK"@);
    let v = report::put_line(v, "[TEST]   Registry lookup OK"@);
    let v = report::put_line(v, "[TEST]   Unregister OK"@);
    report::put_line(v, "[TEST] Phase 9.1: ALL TESTS PASSED"@)
}

/// Checks a RAM disk of eight sectors, and the registry with it. Whether every check
/// passed: with room for one more device, they all do, and the registry is as it was.
pub fn phase91_block_test(r: &mut Report, registry: &mut BlockDeviceRegistry<RamDisk>) -> (ok: bool)
    requires
        old(registry).wf(),
        exists|k: int| 0 <= k < old(registry).slots().len() && old(registry).slots()[k] is None,
    ensures
        ok,
        final(r)@ == with_ram_test(old(r)@, first_free(old(registry).slots(), 0) as usize),
        final(r).checks() == old(r).checks(),
        final(registry).wf(),
        final(registry).slots() == old(registry).slots(),
{
    r.put_line("[TEST] Phase 9.1: Block device abstraction");
    let disk: RamDisk = RamDisk::new(8, 512);
    disk.note_created(&mut r.text);
    if !has_properties(&disk) {
        return false;
    }
    r.put_line("[TEST]   Device properties OK");
    let id: usize = match register_device(registry, disk, &mut r.text) {
        Ok(id) => id,
        Err(_) => {
            return false;
        },
    };
    proof {
        lemma_first_free(old(registry).slots(), 0, id as int);
    }
    r.put_line("[TEST]   Registry OK");
    match registry.get_mut(id) {
        Some(disk) => {
            if !keeps_sector(disk) {
                return false;
            }
            r.put_line("[TEST]   Read/write verify OK");
            if !keeps_all(disk) {
                return false;
            }
            r.put_line("[TEST]   Multi-sector OK");
            if !refuses_far_sectors(disk) {
                return false;
            }
            r.put_line("[TEST]   Out-of-bounds check OK");
            if !refuses_odd_buffers(disk) {
                return false;
            }
            r.put_line("[TEST]   Buffer size check OK");
        },
        None => {
            return false;
        },
    }
    match get_device(registry, id) {
        Some(disk) => {
            let name: &str = disk.name();
            assert(name@ == "ramdisk"@);
            if !same(name.as_bytes(), "ramdisk".as_bytes()) {
                return false;
            }
        },
        None => {
            return false;
        },
    }
    r.put_line("[TEST]   Registry lookup OK");
    let removed: Option<RamDisk> = unregister_device(registry, id);
    if removed.is_none() || get_device(registry, id).is_some() {
        return false;
    }
    r.put_line("[TEST]   Unregister OK");
    assert(registry.slots() =~= old(registry).slots());
    r.put_line("[TEST] Phase 9.1: ALL TESTS PASSED");
    true
}

/// What the first device gave.
pub struct AhciReads {
    pub name: Vec<u8>,
    pub total_sectors: u64,
    pub sector_size: u32,
    pub first: Result<[u8; 512], BlockError>,
    pub past_end_refused: bool,
    pub short_buffer_refused: bool,
}

/// How the check of the first device ended.
#[derive(Debug, Clone, Copy, PartialEq, Eq, Structural)]
pub enum DiskVerdict {
    Skipped,
    BadName,
    ReadFailed,
    NoSignature,
    PastEndRead,
    ShortRead,
    Passed,
}

/// How the check of a device ends, by what it gave.
pub open spec fn verdict(reads: Option<AhciReads>) -> DiskVerdict {
    match reads {
        None => DiskVerdict::Skipped,
        Some(a) => {
            if !report::prefixed(a.name@, serial::text("ahci"@)) {
                DiskVerdict::BadName
            } else {
                match a.first {
                    Err(_) => DiskVerdict::ReadFailed,
                    Ok(b) => {
                        if b@[510] != 0x55 || b@[511] != 0xAA {
                            DiskVerdict::NoSignature
                        } else if !a.past_end_refused {
                            DiskVerdict::PastEndRead
                        } else if !a.short_buffer_refused {
                            DiskVerdict::ShortRead
                        } else {
                            DiskVerdict::Passed
                        }
                    },
                }
            }
        },
    }
}

/// An error number as the 64 bits that stand for it.
pub open spec fn errno_bits(e: BlockError) -> int {
    0x1_0000_0000_0000_0000 + e.errno()
}

fn errno_word(e: BlockError) -> (r: u64)
    ensures
        r == errno_bits(e),
{
    let n: i64 = e.to_errno();
    u64::MAX - (-(n + 1)) as u64
}

/// The report on the first device.
pub open spec fn with_ahci(v: ReportView, reads: Option<AhciReads>) -> ReportView {
    let v = report::put_line(v, "[TEST] Phase 9.3: AHCI disk read"@);
    let end = verdict(reads);
    match reads {
        None => report::put_line(v, "[TEST] Phase 9.3: SKIPPED (no device 0)"@),
        Some(a) => {
            if end == DiskVerdict::BadName {
                v
            } else {
                let v = report::put_bytes(report::put(v, "[TEST]   Device: "@), a.name@);
                let v = report::put_hex(report::put(v, " sectors="@), a.total_sectors as int);
                let v = report::put_end(report::put_hex(report::put(v, " ssize="@), a.sector_size as int));
                match a.first {
                    Err(e) => report::put_end(
                        report::put_hex(report::put(v, "[TEST]   FAIL: read_sector(0) error="@), errno_bits(e)),
                    ),
                    Ok(_) => {
                        let v1 = report::put_line(v, "[TEST]   Read sector 0 OK"@);
                        let v2 = report::put_line(v1, "[TEST]   MBR signature OK (0x55AA)"@);
                        let v3 = report::put_line(v2, "[TEST]   Out-of-bounds check OK"@);
                        let v4 = report::put_line(v3, "[TEST]   Buffer size check OK"@);
                        match end {
                            DiskVerdict::NoSignature => v1,
                            DiskVerdict::PastEndRead => v2,
                            DiskVerdict::ShortRead => v3,
                            _ => report::put_line(v4, "[TEST] Phase 9.3: ALL TESTS PASSED"@),
                        }
                    },
                }
            }
        },
    }
}

/// Writes the report on the first device, by what it gave.
pub fn ahci_report(r: &mut Report, reads: &Option<AhciReads>) -> (end: DiskVerdict)
    ensures
        end == verdict(*reads),
        final(r)@ == with_ahci(old(r)@, *reads),
        final(r).checks() == old(r).checks(),
{
    r.put_line("[TEST] Phase 9.3: AHCI disk read");
    let a: &AhciReads = match reads {
        Some(a) => a,
        None => {
            r.put_line("[TEST] Phase 9.3: SKIPPED (no device 0)");
            return DiskVerdict::Skipped;
        },
    };
    if !starts_with(&a.name, "ahci".as_bytes()) {
        return DiskVerdict::BadName;
    }
    r.put("[TEST]   Device: ");
    r.put_bytes(&a.name);
    r.put(" sectors=");
    r.put_hex(a.total_sectors);
    r.put(" ssize=");
    r.put_hex(a.sector_size as u64);
    r.put_end();
    let buf: &[u8; 512] = match &a.first {
        Ok(buf) => buf,
        Err(e) => {
            r.put("[TEST]   FAIL: read_sector(0) error=");
            r.put_hex(errno_word(*e));
            r.put_end();
            return DiskVerdict::ReadFailed;
        },
    };
    r.put_line("[TEST]   Read sector 0 OK");
    if buf[510] != 0x55 || buf[511] != 0xAA {
        return DiskVerdict::NoSignature;
    }
    r.put_line("[TEST]   MBR signature OK (0x55AA)");
    if !a.past_end_refused {
        return DiskVerdict::PastEndRead;
    }
    r.put_line("[TEST]   Out-of-bounds check OK");
    if !a.short_buffer_refused {
        return DiskVerdict::ShortRead;
    }
    r.put_line("[TEST]   Buffer size check OK");
    r.put_line("[TEST] Phase 9.3: ALL TESTS PASSED");
    DiskVerdict::Passed
}

/// Whether a device answers a read of its first sector into 256 bytes in this way. One
/// whose sectors have that size, and that has a sector, may be relied on to give it.
pub open spec fn short_answer<D: BlockDevice>(d: &D, refused: bool) -> bool {
    match block::request_error(d.sector_bytes(), d.sectors().len() as int, 0, 256) {
        Some(_) => refused,
        None => d.reliable() ==> !refused,
    }
}

/// Whether a device gives these answers.
pub open spec fn gives<D: BlockDevice>(device: Option<D>, reads: Option<AhciReads>) -> bool {
    match (device, reads) {
        (None, None) => true,
        (Some(d), Some(a)) => {
            &&& a.name@ == serial::text(d.label())
            &&& a.total_sectors == d.sectors().len()
            &&& a.sector_size == d.sector_bytes()
            &&& match a.first {
                Ok(b) => table::has_sector(&d, 0) && b@ == d.sectors()[0],
                Err(_) => d.reliable() ==> !table::has_sector(&d, 0),
            }
            &&& a.past_end_refused
            &&& short_answer(&d, a.short_buffer_refused)
        },
        _ => false,
    }
}

/// Asks the first device for its first sector, for one behind its end, and for one into
/// a buffer of half the size.
fn ask<D: BlockDevice>(registry: &BlockDeviceRegistry<D>) -> (reads: Option<AhciReads>)
    requires
        registry.wf(),
        registry.lookup(0) matches Some(d) ==> d.wf(),
    ensures
        gives(registry.lookup(0), reads),
{
    let disk: &D = match get_device(registry, 0) {
        Some(d) => d,
        None => {
            return None;
        },
    };
    let mut name: Vec<u8> = Vec::new();
    serial::write_str(&mut name, disk.name());
    let mut buf: [u8; 512] = [0u8; 512];
    let first: Result<[u8; 512], BlockError> = match disk.read_sector(0, &mut buf) {
        Ok(_) => Ok(buf),
        Err(e) => Err(e),
    };
    assert(name@ =~= serial::text(disk.label()));
    Some(
        AhciReads {
            name,
            total_sectors: disk.total_sectors(),
            sector_size: disk.sector_size(),
            first,
            past_end_refused: refuses_end(disk),
            short_buffer_refused: refuses_short(disk),
        },
    )
}

/// Whether a device refuses the sector behind its end. Every device does.
fn refuses_end<D: BlockDevice>(disk: &D) -> (r: bool)
    requires
        disk.wf(),
    ensures
        r,
{
    let mut buf: [u8; 512] = [0u8; 512];
    disk.read_sector(disk.total_sectors(), &mut buf).is_err()
}

/// Whether a device refuses a buffer of 256 bytes. Every device with sectors of another
/// size does, and every device without sectors.
fn refuses_short<D: BlockDevice>(disk: &D) -> (r: bool)
    requires
        disk.wf(),
    ensures
        short_answer(disk, r),
{
    let mut buf: [u8; 256] = [0u8; 256];
    disk.read_sector(0, &mut buf).is_err()
}

/// Checks the first device: the report says what it gave.
pub fn phase93_ahci_test<D: BlockDevice>(r: &mut Report, registry: &BlockDeviceRegistry<D>) -> (end:
    DiskVerdict)
    requires
        registry.wf(),
        registry.lookup(0) matches Some(d) ==> d.wf(),
    ensures
        exists|reads: Option<AhciReads>|
            #![trigger gives(registry.lookup(0), reads)]
            gives(registry.lookup(0), reads) && end == verdict(reads) && final(r)@ == with_ahci(
                old(r)@,
                reads,
            ),
        final(r).checks() == old(r).checks(),
{
    let reads: Option<AhciReads> = ask(registry);
    ahci_report(r, &reads)
}

/// A reliable AHCI disk with 512-byte sectors and a boot signature passes the check.
pub proof fn law_good_disk_passes<D: BlockDevice>(disk: D, reads: AhciReads)
    requires
        gives(Some(disk), Some(reads)),
        disk.reliable(),
        table::has_sector(&disk, 0),
        report::prefixed(serial::text(disk.label()), serial::text("ahci"@)),
        disk.sectors()[0][510] == 0x55,
        disk.sectors()[0][511] == 0xAA,
    ensures
        verdict(Some(reads)) == DiskVerdict::Passed,
{
}

/// Whether a sector was read, as far as the device can be relied on.
pub open spec fn sector_seen<D: BlockDevice>(disk: &D, lba: int, got: Option<[u8; 512]>) -> bool {
    match got {
        Some(b) => table::has_sector(disk, lba) && b@ == disk.sectors()[lba],
        None => disk.reliable() ==> !table::has_sector(disk, lba),
    }
}

/// The same, where only the success counts.
pub open spec fn success_seen<D: BlockDevice>(disk: &D, lba: int, ok: bool) -> bool {
    if ok {
        table::has_sector(disk, lba)
    } else {
        disk.reliable() ==> !table::has_sector(disk, lba)
    }
}

/// The same, for three readings.
pub open spec fn triple_seen<D: BlockDevice>(disk: &D, lba: int, got: Option<Triple>) -> bool {
    match got {
        Some(t) => {
            &&& table::has_sector(disk, lba)
            &&& t.a@ == disk.sectors()[lba]
            &&& t.b@ == disk.sectors()[lba]
            &&& t.c@ == disk.sectors()[lba]
        },
        None => disk.reliable() ==> !table::has_sector(disk, lba),
    }
}

/// Whether a disk gives these answers.
pub open spec fn disk_gives<D: BlockDevice>(disk: &D, d: DiskReads) -> bool {
    &&& sector_seen(disk, 0, d.mbr)
    &&& sector_seen(disk, 0x3F, d.boot)
    &&& forall|i: int| 0 <= i < 4 ==> success_seen(disk, i + 1, #[trigger] d.gap@[i])
    &&& sector_seen(disk, 0, d.scattered_mbr)
    &&& success_seen(disk, 0x3F, d.scattered@[0])
    &&& success_seen(disk, 0x238, d.scattered@[1])
    &&& success_seen(disk, 0x1000, d.scattered@[2])
    &&& success_seen(disk, 0x40000, d.scattered@[3])
    &&& triple_seen(disk, 0x3F, d.boot_three)
    &&& d.past_end_refused
    &&& short_answer(disk, d.short_buffer_refused)
    &&& triple_seen(disk, 0, d.mbr_three)
    &&& triple_seen(disk, 0x3F, d.boot_again_three)
}

fn see_sector<D: BlockDevice>(disk: &D, lba: u64) -> (r: Option<[u8; 512]>)
    requires
        disk.wf(),
    ensures
        sector_seen(disk, lba as int, r),
{
    match read_block(disk, lba) {
        Ok(buf) => Some(buf),
        Err(_) => None,
    }
}

fn see_success<D: BlockDevice>(disk: &D, lba: u64) -> (r: bool)
    requires
        disk.wf(),
    ensures
        success_seen(disk, lba as int, r),
{
    read_block(disk, lba).is_ok()
}

fn see_triple<D: BlockDevice>(disk: &D, lba: u64) -> (r: Option<Triple>)
    requires
        disk.wf(),
    ensures
        triple_seen(disk, lba as int, r),
{
    match (read_block(disk, lba), read_block(disk, lba), read_block(disk, lba)) {
        (Ok(a), Ok(b), Ok(c)) => Some(Triple { a, b, c }),
        _ => None,
    }
}

/// Reads the sectors that the checks of the raw disk look at.
pub fn read_disk<D: BlockDevice>(disk: &D) -> (r: DiskReads)
    requires
        disk.wf(),
    ensures
        disk_gives(disk, r),
{
    let mbr: Option<[u8; 512]> = see_sector(disk, 0);
    let boot: Option<[u8; 512]> = see_sector(disk, 0x3F);
    let gap: [bool; 4] = [
        see_success(disk, 1),
        see_success(disk, 2),
        see_success(disk, 3),
        see_success(disk, 4),
    ];
    let scattered_mbr: Option<[u8; 512]> = see_sector(disk, 0);
    let scattered: [bool; 4] = [
        see_success(disk, 0x3F),
        see_success(disk, 0x238),
        see_success(disk, 0x1000),
        see_success(disk, 0x40000),
    ];
    let boot_three: Option<Triple> = see_triple(disk, 0x3F);
    let past_end_refused: bool = refuses_end(disk);
    let short_buffer_refused: bool = refuses_short(disk);
    let mbr_three: Option<Triple> = see_triple(disk, 0);
    let boot_again_three: Option<Triple> = see_triple(disk, 0x3F);
    DiskReads {
        mbr,
        boot,
        gap,
        scattered_mbr,
        scattered,
        boot_three,
        past_end_refused,
        short_buffer_refused,
        mbr_three,
        boot_again_three,
    }
}

} // verus!
