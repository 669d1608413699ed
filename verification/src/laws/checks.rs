//! What the built-in checks count and how they end.
use vstd::prelude::*;

use crate::fat32::bpb::FatBpb;
use crate::fat32::entry::EntryView;
use crate::fat32::inode::{
    dir_chain, dir_cluster, dir_raw, inode_of, DirLocation, FatInner, FatInode,
};
use crate::process::process::FdType;
use crate::selftest::disk::{verdict, AhciReads};
use crate::selftest::files::{closed_from, free_from, FdTableView};
use crate::selftest::report::{
    elf_magic, failed, mz_magic, passed, prefixed, put, put_hex, put_line, with_counts,
    with_summary, ReportView,
};
use crate::selftest::volume::child;
use crate::serial;

verus! {

/// A check that passed counts as one that passed, and one that failed as one that failed;
/// text alone counts as nothing. A report only ever grows.
pub proof fn law_checks_counted(v: ReportView, name: Seq<char>, value: int)
    ensures
        passed(v, name).passed == v.passed + 1 && passed(v, name).failed == v.failed,
        failed(v, name).failed == v.failed + 1 && failed(v, name).passed == v.passed,
        put(v, name).passed == v.passed && put(v, name).failed == v.failed,
        put_line(v, name).passed == v.passed && put_line(v, name).failed == v.failed,
        put_hex(v, value).passed == v.passed && put_hex(v, value).failed == v.failed,
        with_counts(v, name).passed == v.passed && with_counts(v, name).failed == v.failed,
        put(v, name).text == v.text + serial::text(name),
        put_line(v, name).text == v.text + serial::text(name) + seq![13u8, 10],
        passed(v, name).text == v.text + serial::text("[T]   PASS: "@) + serial::text(name) + seq![
            13u8,
            10,
        ],
        failed(v, name).text == v.text + serial::text("[T]   FAIL: "@) + serial::text(name) + seq![
            13u8,
            10,
        ],
{
}

/// The end of a series says that all is well exactly if no check of it failed.
pub proof fn law_summary(v: ReportView, title: Seq<char>, good: Seq<char>, bad: Seq<char>, other: Seq<char>)
    ensures
        v.failed == 0 ==> with_summary(v, title, good, bad) == with_summary(v, title, good, other),
        v.failed != 0 ==> with_summary(v, title, good, bad) == with_summary(v, title, other, bad),
        with_summary(v, title, good, bad).passed == v.passed,
        with_summary(v, title, good, bad).failed == v.failed,
{
}

/// A disk passes exactly if its name starts with `ahci`, its first sector can be read and is
/// signed, and it refuses a sector behind its end and a short buffer.
pub proof fn law_disk_passes(a: AhciReads)
    ensures
        verdict(None) is Skipped,
        verdict(Some(a)) is Passed <==> {
            &&& prefixed(a.name@, serial::text("ahci"@))
            &&& a.first matches Ok(b) && b@[510] == 0x55 && b@[511] == 0xAA
            &&& a.past_end_refused
            &&& a.short_buffer_refused
        },
        a.first is Err && prefixed(a.name@, serial::text("ahci"@)) ==> verdict(Some(a))
            is ReadFailed,
        !prefixed(a.name@, serial::text("ahci"@)) ==> verdict(Some(a)) is BadName,
{
}

/// The magic bytes of the two kinds of executables.
pub proof fn law_magic_bytes(data: Seq<u8>, rest: Seq<u8>)
    ensures
        elf_magic(seq![127u8, 69, 76, 70] + rest),
        mz_magic(seq![77u8, 90] + rest),
        elf_magic(data) ==> data.take(4) == seq![127u8, 69, 76, 70],
        mz_magic(data) ==> data.take(2) == seq![77u8, 90],
{
    if elf_magic(data) {
        assert(data.take(4) =~= seq![127u8, 69, 76, 70]);
    }
    if mz_magic(data) {
        assert(data.take(2) =~= seq![77u8, 90]);
    }
}

/// The descriptor that is taken is the lowest closed one.
pub proof fn law_lowest_descriptor(types: Seq<FdType>, from: int)
    requires
        0 <= from,
    ensures
        match closed_from(types, from) {
            Some(i) => from <= i < types.len() && types[i] is Closed && forall|j: int|
                from <= j < i ==> !(#[trigger] types[j] is Closed),
            None => forall|j: int| from <= j < types.len() ==> !(#[trigger] types[j] is Closed),
        },
    decreases types.len() - from,
{
    if from < types.len() && !(types[from] is Closed) {
        law_lowest_descriptor(types, from + 1);
    }
}

/// The handle that is taken is the lowest free one.
pub proof fn law_lowest_handle(handles: Seq<bool>, from: int)
    requires
        0 <= from,
    ensures
        match free_from(handles, from) {
            Some(i) => from <= i < handles.len() && !handles[i] && forall|j: int|
                from <= j < i ==> #[trigger] handles[j],
            None => forall|j: int| from <= j < handles.len() ==> #[trigger] handles[j],
        },
    decreases handles.len() - from,
{
    if from < handles.len() && handles[from] {
        law_lowest_handle(handles, from + 1);
    }
}

/// Closing a file gives back what opening it took.
pub proof fn law_open_then_close(t: FdTableView, fd: int, handle: int, flags: u8)
    requires
        0 <= fd < t.types.len(),
        t.flags.len() == t.types.len(),
        0 <= handle < t.handles.len(),
        handle < 256,
        t.types[fd] is Closed,
        t.flags[fd] == 0,
        !t.handles[handle],
    ensures
        t.opened(fd, handle, flags).types[fd] == (FdType::FsFile { index: handle as u8 }),
        t.opened(fd, handle, flags).flags[fd] == flags,
        t.opened(fd, handle, flags).handles[handle],
        t.opened(fd, handle, flags).closed(fd, handle) == t,
{
    let u = t.opened(fd, handle, flags).closed(fd, handle);
    assert(u.types =~= t.types);
    assert(u.flags =~= t.flags);
    assert(u.handles =~= t.handles);
}

/// An entry with the directory bit stands for a directory that starts at its cluster, any
/// other for a file of its size that does.
pub proof fn law_entry_stands_for(inner: FatInner, e: EntryView)
    ensures
        e.attributes & 0x10 != 0 ==> (inode_of(inner, e) matches FatInode::Dir(d) && d.inner == inner
            && d.location == DirLocation::ClusterChain(e.first_cluster)),
        e.attributes & 0x10 == 0 ==> (inode_of(inner, e) matches FatInode::File(f) && f.inner
            == inner && f.first_cluster == e.first_cluster && f.size == e.size),
{
}

/// A file has nothing in it that a name could stand for.
pub proof fn law_no_child_of_file(disk: Seq<Seq<u8>>, x: FatInode, name: Seq<char>)
    ensures
        x is File ==> child(disk, x, name) is None,
{
}

/// The root directory of a FAT16 volume is a run of sectors in front of the data, and has no
/// chain; any other directory is named by the first cluster of its chain.
pub proof fn law_root_directory(disk: Seq<Seq<u8>>, bpb: FatBpb, c: u32, k: int, j: int)
    requires
        0 <= k < bpb.root_dir_sectors,
        0 <= j < 512,
    ensures
        dir_raw(disk, bpb, DirLocation::Fat16Root).len() == 512 * bpb.root_dir_sectors,
        dir_raw(disk, bpb, DirLocation::Fat16Root)[512 * k + j] == disk[bpb.base_sector
            + bpb.root_dir_start_sector + k][j],
        dir_chain(disk, bpb, DirLocation::Fat16Root).len() == 0,
        dir_cluster(DirLocation::Fat16Root) == 0,
        dir_cluster(DirLocation::ClusterChain(c)) == c,
{
}

} // verus!
