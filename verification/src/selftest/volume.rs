//! Reading the volume that the checks of the file system look at.
use vstd::prelude::*;

use crate::block::registry::BlockDeviceRegistry;
use crate::block::BlockDevice;
use crate::fat32::dir;
use crate::fat32::file::FatFileHandle;
use crate::fat32::fs;
use crate::fat32::fs::Fat32Fs;
use crate::fat32::inode;
use crate::fat32::inode::{FatDirHandle, FatDirInode, FatInode};
use crate::selftest::fat::{DeepWay, FatReads, FileWay};
use crate::selftest::report;
use crate::serial;
use crate::vfs::VfsError;

verus! {

/// The device that a volume lies on.
pub open spec fn device_of<D: BlockDevice>(registry: &BlockDeviceRegistry<D>, id: usize) -> D {
    registry.lookup(id)->0
}

/// Whether the volume of a directory or file is mounted, on a device that is there.
pub open spec fn there<D: BlockDevice>(registry: &BlockDeviceRegistry<D>, x: FatInode) -> bool {
    inode::mounted(registry, inner_of(x)) && registry.lookup(inner_of(x).device_id) is Some
}

pub open spec fn inner_of(x: FatInode) -> inode::FatInner {
    match x {
        FatInode::Dir(d) => d.inner,
        FatInode::File(f) => f.inner,
    }
}

/// The names in a directory, in UTF-8.
pub open spec fn dir_names(disk: Seq<Seq<u8>>, d: FatDirInode) -> Seq<Seq<u8>> {
    let list = dir::listing(inode::dir_raw(disk, d.inner.bpb, d.location));
    Seq::new(list.len(), |i: int| serial::text(list[i].name))
}

/// Whether a directory gives this listing.
pub open spec fn lists<D: BlockDevice>(
    device: &D,
    d: FatDirInode,
    got: Option<Vec<Vec<u8>>>,
) -> bool {
    match got {
        Some(l) => inode::dir_readable(device, d.inner.bpb, d.location) && report::names(l@)
            == dir_names(device.sectors(), d),
        None => device.reliable() ==> !inode::dir_readable(device, d.inner.bpb, d.location),
    }
}

/// What a name in a directory stands for. A file has no names in it.
pub open spec fn child(disk: Seq<Seq<u8>>, x: FatInode, name: Seq<char>) -> Option<FatInode> {
    match x {
        FatInode::Dir(d) => match dir::locate(
            inode::dir_raw(disk, d.inner.bpb, d.location),
            name,
            true,
        ) {
            Some((_, e)) => Some(inode::inode_of(d.inner, e)),
            None => None,
        },
        FatInode::File(_) => None,
    }
}

/// Whether a directory or file can be opened.
pub open spec fn can_open<D: BlockDevice>(device: &D, x: FatInode) -> bool {
    match x {
        FatInode::Dir(d) => inode::dir_readable(device, d.inner.bpb, d.location),
        FatInode::File(f) => inode::file_readable(device, f.inner.bpb, f.first_cluster, f.size),
    }
}

/// What is read of a directory or file.
pub open spec fn contents(disk: Seq<Seq<u8>>, x: FatInode) -> Seq<u8> {
    match x {
        FatInode::Dir(d) => inode::name_list(
            dir::listing(inode::dir_raw(disk, d.inner.bpb, d.location)),
        ),
        FatInode::File(f) => inode::file_bytes(disk, f.inner.bpb, f.first_cluster, f.size),
    }
}

/// Whether looking up a name gives this.
pub open spec fn finds<D: BlockDevice>(
    device: &D,
    x: FatInode,
    name: Seq<char>,
    got: Option<FatInode>,
) -> bool {
    match got {
        Some(c) => child(device.sectors(), x, name) == Some(c),
        None => device.reliable() && can_open(device, x) ==> child(device.sectors(), x, name)
            is None,
    }
}

/// Whether reading a directory or file gives this.
pub open spec fn reads<D: BlockDevice>(device: &D, x: FatInode, got: Option<Vec<u8>>) -> bool {
    match got {
        Some(data) => can_open(device, x) && data@ == contents(device.sectors(), x),
        None => device.reliable() ==> !can_open(device, x),
    }
}

fn list<D: BlockDevice>(registry: &BlockDeviceRegistry<D>, d: &FatDirInode) -> (r: Option<
    Vec<Vec<u8>>,
>)
    requires
        there(registry, FatInode::Dir(*d)),
    ensures
        lists(&device_of(registry, d.inner.device_id), *d, r),
{
    let names: Vec<String> = match d.readdir(registry) {
        Ok(names) => names,
        Err(_) => {
            return None;
        },
    };
    let ghost wanted = dir_names(device_of(registry, d.inner.device_id).sectors(), *d);
    let mut out: Vec<Vec<u8>> = Vec::new();
    let mut i: usize = 0;
    while i < names.len()
        invariant
            i <= names@.len(),
            out@.len() == i,
            names@.len() == wanted.len(),
            forall|k: int|
                0 <= k < names@.len() ==> serial::text((#[trigger] names@[k])@) == wanted[k],
            forall|k: int| 0 <= k < i ==> (#[trigger] out@[k])@ == wanted[k],
        decreases names@.len() - i,
    {
        let mut raw: Vec<u8> = Vec::new();
        serial::write_str(&mut raw, names[i].as_str());
        assert(raw@ =~= wanted[i as int]);
        out.push(raw);
        i = i + 1;
    }
    assert(report::names(out@) =~= wanted);
    Some(out)
}

fn find<D: BlockDevice>(registry: &BlockDeviceRegistry<D>, x: &FatInode, name: &str) -> (r: Option<
    FatInode,
>)
    requires
        there(registry, *x),
    ensures
        finds(&device_of(registry, inner_of(*x).device_id), *x, name@, r),
        r matches Some(c) ==> inner_of(c) == inner_of(*x),
{
    match x {
        FatInode::Dir(d) => match d.lookup(registry, name) {
            Ok(c) => Some(c),
            Err(_) => None,
        },
        FatInode::File(f) => match f.lookup(name) {
            Ok(c) => Some(c),
            Err(_) => None,
        },
    }
}

fn drain_file(handle: FatFileHandle) -> (r: Vec<u8>)
    requires
        handle.pos == 0,
    ensures
        r@ == handle.data@,
{
    let mut file: FatFileHandle = handle;
    let mut data: Vec<u8> = Vec::new();
    let mut tmp: [u8; 512] = [0u8; 512];
    loop
        invariant
            file.data@ == handle.data@,
            file.pos <= file.data@.len(),
            data@ == file.data@.take(file.pos as int),
        ensures
            data@ == handle.data@,
        decreases file.data@.len() - file.pos,
    {
        let ghost at = file.pos as int;
        let n: usize = match file.read(&mut tmp) {
            Ok(n) => n,
            Err(_) => 0,
        };
        if n == 0 {
            assert(file.data@.take(file.pos as int) =~= file.data@);
            break;
        }
        assert(at + n <= file.data.len());
        assert(tmp@.subrange(0, n as int) =~= file.data@.subrange(at, at + n));
        crate::bytes::append(&mut data, &tmp[0..n]);
        assert(data@ =~= file.data@.take(at + n));
    }
    data
}

fn drain_dir(handle: FatDirHandle) -> (r: Vec<u8>)
    requires
        handle.pos == 0,
    ensures
        r@ == handle.data@,
{
    let mut file: FatDirHandle = handle;
    let mut data: Vec<u8> = Vec::new();
    let mut tmp: [u8; 512] = [0u8; 512];
    loop
        invariant
            file.data@ == handle.data@,
            file.pos <= file.data@.len(),
            data@ == file.data@.take(file.pos as int),
        ensures
            data@ == handle.data@,
        decreases file.data@.len() - file.pos,
    {
        let ghost at = file.pos as int;
        let n: usize = match file.read(&mut tmp) {
            Ok(n) => n,
            Err(_) => 0,
        };
        if n == 0 {
            assert(file.data@.take(file.pos as int) =~= file.data@);
            break;
        }
        assert(at + n <= file.data.len());
        assert(tmp@.subrange(0, n as int) =~= file.data@.subrange(at, at + n));
        crate::bytes::append(&mut data, &tmp[0..n]);
        assert(data@ =~= file.data@.take(at + n));
    }
    data
}

fn read<D: BlockDevice>(registry: &BlockDeviceRegistry<D>, x: &FatInode) -> (r: Option<Vec<u8>>)
    requires
        there(registry, *x),
    ensures
        reads(&device_of(registry, inner_of(*x).device_id), *x, r),
{
    match x {
        FatInode::Dir(d) => match d.open(registry) {
            Ok(handle) => Some(drain_dir(handle)),
            Err(_) => None,
        },
        FatInode::File(f) => match f.open(registry) {
            Ok(handle) => Some(drain_file(handle)),
            Err(_) => None,
        },
    }
}

/// What a path of two names stands for.
pub open spec fn second(disk: Seq<Seq<u8>>, root: FatInode, a: Seq<char>, b: Seq<char>) -> Option<
    FatInode,
> {
    match child(disk, root, a) {
        Some(x) => child(disk, x, b),
        None => None,
    }
}

/// What a path of three names stands for.
pub open spec fn third(
    disk: Seq<Seq<u8>>,
    root: FatInode,
    a: Seq<char>,
    b: Seq<char>,
    c: Seq<char>,
) -> Option<FatInode> {
    match second(disk, root, a, b) {
        Some(x) => child(disk, x, c),
        None => None,
    }
}

/// Whether following a path and reading twice gives this.
pub open spec fn way_gives<D: BlockDevice>(
    device: &D,
    root: FatInode,
    a: Seq<char>,
    b: Seq<char>,
    c: Seq<char>,
    way: FileWay,
) -> bool {
    let disk = device.sectors();
    match way {
        FileWay::NoTop => finds(device, root, a, None),
        FileWay::NoDirectory => child(disk, root, a) matches Some(x) && finds(device, x, b, None),
        FileWay::NoFile => second(disk, root, a, b) matches Some(x) && finds(device, x, c, None),
        FileWay::NotOpened => third(disk, root, a, b, c) matches Some(x) && reads(device, x, None),
        FileWay::Read { data, again } => third(disk, root, a, b, c) matches Some(x) && reads(
            device,
            x,
            Some(data),
        ) && reads(device, x, again),
    }
}

/// Whether following a path gives this.
pub open spec fn deep_gives<D: BlockDevice>(
    device: &D,
    root: FatInode,
    a: Seq<char>,
    b: Seq<char>,
    c: Seq<char>,
    way: DeepWay,
) -> bool {
    let disk = device.sectors();
    match way {
        DeepWay::NoTop => finds(device, root, a, None),
        DeepWay::NoDirectory => child(disk, root, a) matches Some(x) && finds(device, x, b, None),
        DeepWay::NoFile => second(disk, root, a, b) matches Some(x) && finds(device, x, c, None),
        DeepWay::Found { is_file, is_dir } => third(disk, root, a, b, c) matches Some(x) && is_file
            == (x is File) && is_dir == (x is Dir),
    }
}

fn follow<D: BlockDevice>(
    registry: &BlockDeviceRegistry<D>,
    root: &FatInode,
    a: &str,
    b: &str,
    c: &str,
) -> (r: FileWay)
    requires
        there(registry, *root),
    ensures
        way_gives(&device_of(registry, inner_of(*root).device_id), *root, a@, b@, c@, r),
{
    let top: FatInode = match find(registry, root, a) {
        Some(x) => x,
        None => {
            return FileWay::NoTop;
        },
    };
    let directory: FatInode = match find(registry, &top, b) {
        Some(x) => x,
        None => {
            return FileWay::NoDirectory;
        },
    };
    let file: FatInode = match find(registry, &directory, c) {
        Some(x) => x,
        None => {
            return FileWay::NoFile;
        },
    };
    match read(registry, &file) {
        Some(data) => FileWay::Read { data, again: read(registry, &file) },
        None => FileWay::NotOpened,
    }
}

fn follow_deep<D: BlockDevice>(
    registry: &BlockDeviceRegistry<D>,
    root: &FatInode,
    a: &str,
    b: &str,
    c: &str,
) -> (r: DeepWay)
    requires
        there(registry, *root),
    ensures
        deep_gives(&device_of(registry, inner_of(*root).device_id), *root, a@, b@, c@, r),
{
    let top: FatInode = match find(registry, root, a) {
        Some(x) => x,
        None => {
            return DeepWay::NoTop;
        },
    };
    let directory: FatInode = match find(registry, &top, b) {
        Some(x) => x,
        None => {
            return DeepWay::NoDirectory;
        },
    };
    match find(registry, &directory, c) {
        Some(FatInode::Dir(d)) => DeepWay::Found { is_file: d.is_file(), is_dir: d.is_dir() },
        Some(FatInode::File(f)) => DeepWay::Found { is_file: f.is_file(), is_dir: f.is_dir() },
        None => DeepWay::NoFile,
    }
}

/// Whether the directory `EFI` gives this: whether it is a directory, and its listing.
pub open spec fn efi_gives<D: BlockDevice>(
    device: &D,
    root: FatInode,
    got: Option<(bool, Option<Vec<Vec<u8>>>)>,
) -> bool {
    match got {
        None => finds(device, root, "EFI"@, None),
        Some((is_dir, listing)) => match child(device.sectors(), root, "EFI"@) {
            Some(FatInode::Dir(d)) => is_dir && lists(device, d, listing),
            Some(FatInode::File(_)) => !is_dir && listing is None,
            None => false,
        },
    }
}

fn look_at_efi<D: BlockDevice>(registry: &BlockDeviceRegistry<D>, root: &FatInode) -> (r: Option<
    (bool, Option<Vec<Vec<u8>>>),
>)
    requires
        there(registry, *root),
    ensures
        efi_gives(&device_of(registry, inner_of(*root).device_id), *root, r),
{
    match find(registry, root, "EFI") {
        Some(FatInode::Dir(d)) => Some((d.is_dir(), list(registry, &d))),
        Some(FatInode::File(f)) => Some((f.is_dir(), None)),
        None => None,
    }
}

/// Whether a volume gives these answers.
pub open spec fn volume_gives<D: BlockDevice>(device: &D, volume: Fat32Fs, f: FatReads) -> bool {
    let root = FatInode::Dir(volume.root_dir());
    &&& fs::mount_said(device, Seq::empty(), f.said@, true)
    &&& fs::mount_said(device, Seq::empty(), f.remount_said@, f.remount_name is Some)
    &&& f.name@ == serial::text(volume.inner.bpb.variant.text())
    &&& match f.remount_name {
        Some(name) => fs::mountable(device) && name@ == serial::text(
            (fs::volume_on(device.sectors())->0).variant.text(),
        ),
        None => device.reliable() ==> !fs::mountable(device) || fs::volume_on(device.sectors())
            is None,
    }
    &&& lists(device, volume.root_dir(), f.root)
    &&& match f.root_again {
        Some((a, b)) => lists(device, volume.root_dir(), Some(a)) && lists(
            device,
            volume.root_dir(),
            Some(b),
        ),
        None => lists(device, volume.root_dir(), None),
    }
    &&& efi_gives(device, root, f.efi)
    &&& deep_gives(device, root, "EFI"@, "BOOT"@, "BOOTX64.EFI"@, f.deep)
    &&& way_gives(device, root, "EFI"@, "BOOT"@, "BOOTX64.EFI"@, f.loader)
    &&& way_gives(device, root, "EFI"@, "INDOMINUS"@, "kernel.elf"@, f.kernel)
}

fn name_of(volume: &Fat32Fs) -> (r: Vec<u8>)
    ensures
        r@ == serial::text(volume.inner.bpb.variant.text()),
{
    let mut out: Vec<u8> = Vec::new();
    serial::write_str(&mut out, volume.name());
    assert(out@ =~= serial::text(volume.inner.bpb.variant.text()));
    out
}

/// Mounts the volume on a device, and reads what the checks look at; what was said, if it
/// cannot be mounted.
pub fn read_volume<D: BlockDevice>(registry: &BlockDeviceRegistry<D>, id: usize) -> (r: Result<
    FatReads,
    Vec<u8>,
>)
    requires
        registry.wf(),
        registry.lookup(id) matches Some(d) && d.wf(),
    ensures
        match r {
            Ok(f) => exists|volume: Fat32Fs|
                #![trigger volume_gives(&device_of(registry, id), volume, f)]
                fs::mountable(&device_of(registry, id)) && fs::volume_on(
                    device_of(registry, id).sectors(),
                ) == Some(volume.inner.bpb) && volume.inner.device_id == id && volume_gives(
                    &device_of(registry, id),
                    volume,
                    f,
                ),
            Err(said) => {
                let device = device_of(registry, id);
                &&& fs::mount_said(&device, Seq::empty(), said@, false)
                &&& device.reliable() ==> !fs::mountable(&device) || fs::volume_on(
                    device.sectors(),
                ) is None
            },
        },
{
    let mut said: Vec<u8> = Vec::new();
    let mounted = Fat32Fs::new(registry, id, &mut said);
    let volume: Fat32Fs = match mounted {
        Ok(volume) => volume,
        Err(_) => {
            return Err(said);
        },
    };
    let name: Vec<u8> = name_of(&volume);
    let mut remount_said: Vec<u8> = Vec::new();
    let remounted = Fat32Fs::new(registry, id, &mut remount_said);
    let remount_name: Option<Vec<u8>> = match remounted {
        Ok(again) => Some(name_of(&again)),
        Err(_) => None,
    };
    let dir: FatDirInode = volume.root();
    let root: FatInode = FatInode::Dir(dir);
    let listing: Option<Vec<Vec<u8>>> = list(registry, &dir);
    let root_again: Option<(Vec<Vec<u8>>, Vec<Vec<u8>>)> = match (
        list(registry, &dir),
        list(registry, &dir),
    ) {
        (Some(a), Some(b)) => Some((a, b)),
        _ => None,
    };
    let efi: Option<(bool, Option<Vec<Vec<u8>>>)> = look_at_efi(registry, &root);
    let deep: DeepWay = follow_deep(registry, &root, "EFI", "BOOT", "BOOTX64.EFI");
    let loader: FileWay = follow(registry, &root, "EFI", "BOOT", "BOOTX64.EFI");
    let kernel: FileWay = follow(registry, &root, "EFI", "INDOMINUS", "kernel.elf");
    let f: FatReads = FatReads {
        said,
        name,
        remount_said,
        remount_name,
        root: listing,
        root_again,
        efi,
        deep,
        loader,
        kernel,
    };
    assert(volume_gives(&device_of(registry, id), volume, f));
    Ok(f)
}

} // verus!
