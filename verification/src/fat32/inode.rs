//! Directories and files of a mounted volume.
use vstd::prelude::*;

use crate::block::registry::{get_device, BlockDeviceRegistry};
use crate::block::BlockDevice;
use crate::bytes;
use crate::fat32::bpb::FatBpb;
use crate::fat32::data;
use crate::fat32::dir;
use crate::fat32::entry;
use crate::fat32::entry::{EntryView, FatDirEntry};
use crate::fat32::file::FatFileHandle;
use crate::fat32::flush;
use crate::fat32::table;
use crate::serial;
use crate::vfs::VfsError;

verus! {

/// What all the inodes of a volume share.
#[derive(Debug, Clone, Copy, PartialEq, Eq, Structural)]
pub struct FatInner {
    pub device_id: usize,
    pub bpb: FatBpb,
}

/// Directory location: different for the FAT16 root and everything else.
#[derive(Debug, Clone, Copy, PartialEq, Eq, Structural)]
pub enum DirLocation {
    Fat16Root,
    ClusterChain(u32),
}

/// Directory inode.
#[derive(Debug, Clone, Copy, PartialEq, Eq, Structural)]
pub struct FatDirInode {
    pub inner: FatInner,
    pub location: DirLocation,
}

/// File inode: the cluster chain is followed on open.
#[derive(Debug, Clone, Copy, PartialEq, Eq, Structural)]
pub struct FatFileInode {
    pub inner: FatInner,
    pub first_cluster: u32,
    pub size: u32,
}

/// What a name in a directory stands for.
#[derive(Debug, Clone, Copy, PartialEq, Eq, Structural)]
pub enum FatInode {
    Dir(FatDirInode),
    File(FatFileInode),
}

/// File handle for directories: entry names, each ended by a zero byte.
pub struct FatDirHandle {
    pub data: Vec<u8>,
    pub pos: usize,
}

/// Whether the device that a volume lies on, if it is still registered, is well-formed.
pub open spec fn mounted<D: BlockDevice>(registry: &BlockDeviceRegistry<D>, inner: FatInner) -> bool {
    &&& registry.wf()
    &&& inner.bpb.wf()
    &&& registry.lookup(inner.device_id) matches Some(d) ==> d.wf()
}

/// The bytes of a directory.
pub open spec fn dir_raw(disk: Seq<Seq<u8>>, bpb: FatBpb, location: DirLocation) -> Seq<u8> {
    match location {
        DirLocation::Fat16Root => data::run_bytes(
            disk,
            bpb.base_sector + bpb.root_dir_start_sector,
            bpb.root_dir_sectors as int,
        ),
        DirLocation::ClusterChain(c) => data::chain_bytes(
            disk,
            bpb,
            table::cluster_chain(disk, bpb, c),
        ),
    }
}

/// Whether all the sectors that hold a directory and its chain exist.
pub open spec fn dir_readable<D: BlockDevice>(device: &D, bpb: FatBpb, location: DirLocation) -> bool {
    match location {
        DirLocation::Fat16Root => data::run_exists(
            device,
            bpb.base_sector + bpb.root_dir_start_sector,
            bpb.root_dir_sectors as int,
        ),
        DirLocation::ClusterChain(c) => {
            let chain = table::cluster_chain(device.sectors(), bpb, c);
            &&& table::chain_readable(device, bpb, chain)
            &&& data::sectors_exist(device, bpb, chain, data::sectors_in(bpb, chain))
        },
    }
}

/// The chain of a directory; the FAT16 root has none.
pub open spec fn dir_chain(disk: Seq<Seq<u8>>, bpb: FatBpb, location: DirLocation) -> Seq<u32> {
    match location {
        DirLocation::Fat16Root => Seq::empty(),
        DirLocation::ClusterChain(c) => table::cluster_chain(disk, bpb, c),
    }
}

pub open spec fn dir_chain_readable<D: BlockDevice>(
    device: &D,
    bpb: FatBpb,
    location: DirLocation,
) -> bool {
    table::chain_readable(device, bpb, dir_chain(device.sectors(), bpb, location))
}

/// The contents of a file of `size` bytes; where its chain is too short, zeros.
pub open spec fn file_bytes(disk: Seq<Seq<u8>>, bpb: FatBpb, first_cluster: u32, size: u32) -> Seq<
    u8,
> {
    let all = data::chain_bytes(disk, bpb, table::cluster_chain(disk, bpb, first_cluster));
    Seq::new(
        size as nat,
        |i: int|
            if i < all.len() {
                all[i]
            } else {
                0u8
            },
    )
}

/// Whether all the sectors that hold the contents of a file and its chain exist.
pub open spec fn file_readable<D: BlockDevice>(
    device: &D,
    bpb: FatBpb,
    first_cluster: u32,
    size: u32,
) -> bool {
    let chain = table::cluster_chain(device.sectors(), bpb, first_cluster);
    let n = data::min(size as int, data::sectors_in(bpb, chain) * 512);
    &&& table::chain_readable(device, bpb, chain)
    &&& data::sectors_exist(device, bpb, chain, data::sectors_for(n))
}

/// Reads the bytes of a directory.
fn read_dir_raw<D: BlockDevice>(device: &D, bpb: &FatBpb, location: DirLocation) -> (r: Result<
    Vec<u8>,
    VfsError,
>)
    requires
        device.wf(),
        bpb.wf(),
    ensures
        match r {
            Ok(raw) => dir_readable(device, *bpb, location) && raw@ == dir_raw(
                device.sectors(),
                *bpb,
                location,
            ),
            Err(e) => e == VfsError::IoError && (device.reliable() ==> !dir_readable(
                device,
                *bpb,
                location,
            )),
        },
{
    match location {
        DirLocation::Fat16Root => data::read_sectors(
            device,
            bpb.base_sector as u64 + bpb.root_dir_start_sector,
            bpb.root_dir_sectors as u64,
        ),
        DirLocation::ClusterChain(cluster) => {
            match table::read_cluster_chain(device, bpb, cluster) {
                Ok(chain) => data::read_chain_bytes(device, bpb, &chain),
                Err(e) => Err(e),
            }
        },
    }
}

/// The chain of a directory, read from a device.
fn read_dir_chain<D: BlockDevice>(device: &D, bpb: &FatBpb, location: DirLocation) -> (r: Result<
    Vec<u32>,
    VfsError,
>)
    requires
        device.wf(),
    ensures
        match r {
            Ok(chain) => {
                &&& chain@ == dir_chain(device.sectors(), *bpb, location)
                &&& dir_chain_readable(device, *bpb, location)
                &&& forall|i: int|
                    0 <= i < chain@.len() ==> 2 <= #[trigger] chain@[i] < bpb.end_mark()
            },
            Err(e) => e == VfsError::IoError && (device.reliable() ==> !dir_chain_readable(
                device,
                *bpb,
                location,
            )),
        },
{
    match location {
        DirLocation::Fat16Root => Ok(Vec::new()),
        DirLocation::ClusterChain(cluster) => table::read_cluster_chain(device, bpb, cluster),
    }
}

/// Reads the contents of a file.
fn read_file<D: BlockDevice>(device: &D, bpb: &FatBpb, first_cluster: u32, size: u32) -> (r: Result<
    Vec<u8>,
    VfsError,
>)
    requires
        device.wf(),
        bpb.wf(),
    ensures
        match r {
            Ok(bytes) => file_readable(device, *bpb, first_cluster, size) && bytes@ == file_bytes(
                device.sectors(),
                *bpb,
                first_cluster,
                size,
            ),
            Err(e) => e == VfsError::IoError && (device.reliable() ==> !file_readable(
                device,
                *bpb,
                first_cluster,
                size,
            )),
        },
{
    let chain: Vec<u32> = match table::read_cluster_chain(device, bpb, first_cluster) {
        Ok(chain) => chain,
        Err(e) => {
            return Err(e);
        },
    };
    let mut contents: Vec<u8> = vec![0u8; size as usize];
    match data::read_file_data(device, bpb, &chain, &mut contents) {
        Ok(_) => {
            assert(contents@ =~= file_bytes(device.sectors(), *bpb, first_cluster, size));
            Ok(contents)
        },
        Err(e) => Err(e),
    }
}

/// What a directory entry stands for.
pub open spec fn inode_of(inner: FatInner, e: EntryView) -> FatInode {
    if e.attributes & 0x10 != 0 {
        FatInode::Dir(
            FatDirInode { inner, location: DirLocation::ClusterChain(e.first_cluster) },
        )
    } else {
        FatInode::File(FatFileInode { inner, first_cluster: e.first_cluster, size: e.size })
    }
}

/// The names in a listing, each as UTF-8 with a zero byte behind it.
pub open spec fn name_list(list: Seq<EntryView>) -> Seq<u8>
    decreases list.len(),
{
    if list.len() == 0 {
        Seq::empty()
    } else {
        name_list(list.drop_last()) + vstd::utf8::encode_utf8(list.last().name).push(0)
    }
}

/// The first entry in a listing that has a given name and is no directory.
pub open spec fn first_file(list: Seq<EntryView>, name: Seq<char>) -> Option<EntryView>
    decreases list.len(),
{
    if list.len() == 0 {
        None
    } else if list[0].name == name && list[0].attributes & 0x10 == 0 {
        Some(list[0])
    } else {
        first_file(list.skip(1), name)
    }
}

/// Whether some entry in a listing has a given name.
pub open spec fn has_name(list: Seq<EntryView>, name: Seq<char>) -> bool {
    exists|i: int| 0 <= i < list.len() && (#[trigger] list[i]).name == name
}

/// What opening a file for writing, or a new one where there is none, gives.
pub open spec fn create_file_outcome<D: BlockDevice>(
    parent: FatDirInode,
    device: Option<D>,
    name: Seq<char>,
    r: Result<FatFileHandle, VfsError>,
) -> bool {
    match device {
        Some(d) => {
            let bpb = parent.inner.bpb;
            let list = dir::listing(dir_raw(d.sectors(), bpb, parent.location));
            let readable = dir_readable(&d, bpb, parent.location);
            let file = first_file(list, name);
            match r {
                Ok(h) => {
                    &&& readable
                    &&& h.inner == parent.inner
                    &&& h.pos == 0
                    &&& !h.dirty
                    &&& h.dir_entry_name@ == name
                    &&& h.dir_chain matches Some(c) && c@ == dir_chain(
                        d.sectors(),
                        bpb,
                        parent.location,
                    )
                    &&& match file {
                        Some(e) => {
                            &&& file_readable(&d, bpb, e.first_cluster, e.size)
                            &&& h.data@ == file_bytes(
                                d.sectors(),
                                bpb,
                                e.first_cluster,
                                e.size,
                            )
                            &&& h.first_cluster == e.first_cluster
                            &&& h.disk_size == e.size
                            &&& !h.is_new
                        },
                        None => {
                            &&& h.data@ == Seq::<u8>::empty()
                            &&& h.first_cluster == 0
                            &&& h.disk_size == 0
                            &&& h.is_new
                        },
                    }
                },
                Err(e) => e == VfsError::IoError && (d.reliable() ==> !readable || (
                file matches Some(f) && !file_readable(&d, bpb, f.first_cluster, f.size))),
            }
        },
        None => r == Err::<FatFileHandle, VfsError>(VfsError::IoError),
    }
}

impl FatDirInode {
    /// The entries of this directory.
    pub fn read_entries<D: BlockDevice>(&self, registry: &BlockDeviceRegistry<D>) -> (r: Result<
        Vec<FatDirEntry>,
        VfsError,
    >)
        requires
            mounted(registry, self.inner),
        ensures
            match (r, registry.lookup(self.inner.device_id)) {
                (Ok(entries), Some(d)) => {
                    &&& dir_readable(&d, self.inner.bpb, self.location)
                    &&& dir::views(entries@) == dir::listing(
                        dir_raw(d.sectors(), self.inner.bpb, self.location),
                    )
                },
                (Ok(_), None) => false,
                (Err(e), Some(d)) => e == VfsError::IoError && (d.reliable() ==> !dir_readable(
                    &d,
                    self.inner.bpb,
                    self.location,
                )),
                (Err(e), None) => e == VfsError::IoError,
            },
    {
        let device: &D = match get_device(registry, self.inner.device_id) {
            Some(d) => d,
            None => {
                return Err(VfsError::IoError);
            },
        };
        match read_dir_raw(device, &self.inner.bpb, self.location) {
            Ok(raw) => dir::parse_dir_entries(&raw),
            Err(e) => Err(e),
        }
    }

    /// Get the cluster chain for this directory (needed for writes).
    pub fn get_chain<D: BlockDevice>(&self, registry: &BlockDeviceRegistry<D>) -> (r: Result<
        Vec<u32>,
        VfsError,
    >)
        requires
            mounted(registry, self.inner),
        ensures
            match (r, registry.lookup(self.inner.device_id)) {
                (Ok(chain), Some(d)) => {
                    &&& chain@ == dir_chain(d.sectors(), self.inner.bpb, self.location)
                    &&& dir_chain_readable(&d, self.inner.bpb, self.location)
                },
                (Ok(_), None) => false,
                (Err(e), Some(d)) => e == VfsError::IoError && (d.reliable()
                    ==> !dir_chain_readable(&d, self.inner.bpb, self.location)),
                (Err(e), None) => e == VfsError::IoError,
            },
    {
        match get_device(registry, self.inner.device_id) {
            Some(d) => read_dir_chain(d, &self.inner.bpb, self.location),
            None => Err(VfsError::IoError),
        }
    }

    /// The file or directory with a given name.
    pub fn lookup<D: BlockDevice>(&self, registry: &BlockDeviceRegistry<D>, name: &str) -> (r:
        Result<FatInode, VfsError>)
        requires
            mounted(registry, self.inner),
        ensures
            match registry.lookup(self.inner.device_id) {
                Some(d) => {
                    let raw = dir_raw(d.sectors(), self.inner.bpb, self.location);
                    match (r, dir::locate(raw, name@, true)) {
                        (Ok(inode), Some((_, e))) => inode == inode_of(self.inner, e)
                            && dir_readable(&d, self.inner.bpb, self.location),
                        (Ok(_), None) => false,
                        (Err(VfsError::NotFound), found) => found is None && dir_readable(
                            &d,
                            self.inner.bpb,
                            self.location,
                        ),
                        (Err(e), _) => e == VfsError::IoError && (d.reliable() ==> !dir_readable(
                            &d,
                            self.inner.bpb,
                            self.location,
                        )),
                    }
                },
                None => r == Err::<FatInode, VfsError>(VfsError::IoError),
            },
    {
        let device: &D = match get_device(registry, self.inner.device_id) {
            Some(d) => d,
            None => {
                return Err(VfsError::IoError);
            },
        };
        let raw: Vec<u8> = match read_dir_raw(device, &self.inner.bpb, self.location) {
            Ok(raw) => raw,
            Err(e) => {
                return Err(e);
            },
        };
        match dir::search_dir(&raw, name, true) {
            Some((_, e)) => {
                if e.attributes & 0x10 != 0 {
                    Ok(
                        FatInode::Dir(
                            FatDirInode {
                                inner: self.inner,
                                location: DirLocation::ClusterChain(e.first_cluster),
                            },
                        ),
                    )
                } else {
                    Ok(
                        FatInode::File(
                            FatFileInode {
                                inner: self.inner,
                                first_cluster: e.first_cluster,
                                size: e.size,
                            },
                        ),
                    )
                }
            },
            None => Err(VfsError::NotFound),
        }
    }

    /// Opens the directory for reading: its names as one run of bytes.
    pub fn open<D: BlockDevice>(&self, registry: &BlockDeviceRegistry<D>) -> (r: Result<
        FatDirHandle,
        VfsError,
    >)
        requires
            mounted(registry, self.inner),
        ensures
            match (r, registry.lookup(self.inner.device_id)) {
                (Ok(handle), Some(d)) => {
                    &&& dir_readable(&d, self.inner.bpb, self.location)
                    &&& handle.pos == 0
                    &&& handle.data@ == name_list(
                        dir::listing(dir_raw(d.sectors(), self.inner.bpb, self.location)),
                    )
                },
                (Ok(_), None) => false,
                (Err(e), Some(d)) => e == VfsError::IoError && (d.reliable() ==> !dir_readable(
                    &d,
                    self.inner.bpb,
                    self.location,
                )),
                (Err(e), None) => e == VfsError::IoError,
            },
    {
        let entries: Vec<FatDirEntry> = match self.read_entries(registry) {
            Ok(entries) => entries,
            Err(e) => {
                return Err(e);
            },
        };
        let ghost list = dir::views(entries@);
        let mut buf: Vec<u8> = Vec::new();
        let mut i: usize = 0;
        while i < entries.len()
            invariant
                i <= entries@.len(),
                list == dir::views(entries@),
                buf@ == name_list(list.take(i as int)),
            decreases entries@.len() - i,
        {
            let ghost had = buf@;
            bytes::append(&mut buf, entries[i].name.as_str().as_bytes());
            buf.push(0);
            i = i + 1;
            assert(list.take(i as int).drop_last() =~= list.take(i - 1));
            assert(buf@ =~= had + vstd::utf8::encode_utf8(list[i - 1].name).push(0));
        }
        assert(list.take(i as int) =~= list);
        Ok(FatDirHandle { data: buf, pos: 0 })
    }

    pub fn is_dir(&self) -> (r: bool)
        ensures
            r,
    {
        true
    }

    pub fn is_file(&self) -> (r: bool)
        ensures
            !r,
    {
        false
    }

    pub fn size(&self) -> (r: u64)
        ensures
            r == 0,
    {
        0
    }

    /// The names in this directory.
    pub fn readdir<D: BlockDevice>(&self, registry: &BlockDeviceRegistry<D>) -> (r: Result<
        Vec<String>,
        VfsError,
    >)
        requires
            mounted(registry, self.inner),
        ensures
            match (r, registry.lookup(self.inner.device_id)) {
                (Ok(names), Some(d)) => {
                    let list = dir::listing(
                        dir_raw(d.sectors(), self.inner.bpb, self.location),
                    );
                    &&& dir_readable(&d, self.inner.bpb, self.location)
                    &&& names@.len() == list.len()
                    &&& forall|i: int|
                        0 <= i < list.len() ==> (#[trigger] names@[i])@ == list[i].name
                },
                (Ok(_), None) => false,
                (Err(e), Some(d)) => e == VfsError::IoError && (d.reliable() ==> !dir_readable(
                    &d,
                    self.inner.bpb,
                    self.location,
                )),
                (Err(e), None) => e == VfsError::IoError,
            },
    {
        let entries: Vec<FatDirEntry> = match self.read_entries(registry) {
            Ok(entries) => entries,
            Err(e) => {
                return Err(e);
            },
        };
        let ghost list = dir::views(entries@);
        let mut names: Vec<String> = Vec::new();
        let mut i: usize = 0;
        while i < entries.len()
            invariant
                i <= entries@.len(),
                list == dir::views(entries@),
                names@.len() == i,
                forall|k: int| 0 <= k < i ==> (#[trigger] names@[k])@ == list[k].name,
            decreases entries@.len() - i,
        {
            names.push(entries[i].name.clone());
            i = i + 1;
        }
        Ok(names)
    }

    /// Opens the file with a given name for writing, or a new empty file if there is
    /// none. A new file gets its entry in the directory when it has been written to and is
    /// closed.
    pub fn create_child_file<D: BlockDevice>(
        &self,
        registry: &BlockDeviceRegistry<D>,
        name: &str,
    ) -> (r: Result<FatFileHandle, VfsError>)
        requires
            mounted(registry, self.inner),
        ensures
            create_file_outcome(*self, registry.lookup(self.inner.device_id), name@, r),
    {
        let device: &D = match get_device(registry, self.inner.device_id) {
            Some(d) => d,
            None => {
                return Err(VfsError::IoError);
            },
        };
        let entries: Vec<FatDirEntry> = match self.read_entries(registry) {
            Ok(entries) => entries,
            Err(e) => {
                return Err(e);
            },
        };
        let wanted: String = name.to_owned();
        let ghost list = dir::views(entries@);
        let mut i: usize = 0;
        assert(list.skip(0) =~= list);
        while i < entries.len()
            invariant
                i <= entries@.len(),
                mounted(registry, self.inner),
                registry.lookup(self.inner.device_id) == Some(*device),
                device.wf(),
                dir_readable(device, self.inner.bpb, self.location),
                list == dir::views(entries@),
                list == dir::listing(
                    dir_raw(device.sectors(), self.inner.bpb, self.location),
                ),
                wanted@ == name@,
                first_file(list, name@) == first_file(list.skip(i as int), name@),
            decreases entries@.len() - i,
        {
            assert(list.skip(i as int)[0] == entries@[i as int]@);
            if entries[i].name == wanted && !entries[i].is_dir() {
                let first_cluster: u32 = entries[i].first_cluster;
                let size: u32 = entries[i].size;
                let contents: Vec<u8> = match read_file(
                    device,
                    &self.inner.bpb,
                    first_cluster,
                    size,
                ) {
                    Ok(contents) => contents,
                    Err(e) => {
                        return Err(e);
                    },
                };
                let chain: Vec<u32> = match self.get_chain(registry) {
                    Ok(chain) => chain,
                    Err(e) => {
                        return Err(e);
                    },
                };
                return Ok(
                    FatFileHandle {
                        inner: self.inner,
                        data: contents,
                        pos: 0,
                        first_cluster,
                        disk_size: size,
                        dir_chain: Some(chain),
                        dir_entry_name: wanted,
                        dirty: false,
                        is_new: false,
                    },
                );
            }
            assert(list.skip(i as int).skip(1) =~= list.skip(i + 1));
            i = i + 1;
        }
        let chain: Vec<u32> = match self.get_chain(registry) {
            Ok(chain) => chain,
            Err(e) => {
                return Err(e);
            },
        };
        Ok(
            FatFileHandle {
                inner: self.inner,
                data: Vec::new(),
                pos: 0,
                first_cluster: 0,
                disk_size: 0,
                dir_chain: Some(chain),
                dir_entry_name: wanted,
                dirty: false,
                is_new: true,
            },
        )
    }
}

/// Whether two states of a registry agree on all the devices but one.
pub open spec fn others_same<D: BlockDevice>(
    a: &BlockDeviceRegistry<D>,
    b: &BlockDeviceRegistry<D>,
    id: usize,
) -> bool {
    &&& a.slots().len() == b.slots().len()
    &&& forall|k: int| 0 <= k < a.slots().len() && k != id ==> #[trigger] a.slots()[k] == b.slots()[k]
}

/// The name of the entry by which a directory names itself, padded with blanks.
pub open spec fn dot_name() -> Seq<u8> {
    seq![0x2Eu8, 0x20, 0x20, 0x20, 0x20, 0x20, 0x20, 0x20, 0x20, 0x20, 0x20]
}

/// The name of the entry by which a directory names its parent, padded with blanks.
pub open spec fn dotdot_name() -> Seq<u8> {
    seq![0x2Eu8, 0x2E, 0x20, 0x20, 0x20, 0x20, 0x20, 0x20, 0x20, 0x20, 0x20]
}

/// The cluster by which a directory is named; the FAT16 root goes by 0.
pub open spec fn dir_cluster(location: DirLocation) -> u32 {
    match location {
        DirLocation::Fat16Root => 0,
        DirLocation::ClusterChain(c) => c,
    }
}

/// What the first sector of a new directory holds: the entries "." and "..", then zeros.
pub open spec fn first_entries(own: u32, parent: u32) -> Seq<u8> {
    entry::entry_bytes(dot_name(), 0x10, own, 0) + entry::entry_bytes(dotdot_name(), 0x10, parent, 0)
}

/// The disk with a new directory in cluster `c`, which has been taken for it. The rest of
/// the cluster is zero.
pub open spec fn dir_laid(disk: Seq<Seq<u8>>, bpb: FatBpb, c: u32, parent: u32) -> Seq<Seq<u8>> {
    data::write_run(
        table::fat_set(disk, bpb, c, bpb.end_mark()),
        bpb.cluster_lba(c),
        bpb.sectors_per_cluster as int,
        first_entries(c, parent),
    )
}

/// The disk once a directory has been created in cluster `c`, and the chain of its parent.
pub open spec fn dir_created(
    disk: Seq<Seq<u8>>,
    parent: FatDirInode,
    c: u32,
    short: Seq<u8>,
) -> Option<(Seq<Seq<u8>>, Seq<u32>)> {
    let bpb = parent.inner.bpb;
    let laid = dir_laid(disk, bpb, c, dir_cluster(parent.location));
    flush::entry_added(
        laid,
        bpb,
        dir_chain(laid, bpb, parent.location),
        entry::entry_bytes(short, 0x10, c, 0),
    )
}

/// Whether creating a directory in cluster `c` meets a sector that does not exist.
pub open spec fn create_dir_blocked<D: BlockDevice>(device: &D, parent: FatDirInode, c: u32) -> bool {
    let bpb = parent.inner.bpb;
    let laid = dir_laid(device.sectors(), bpb, c, dir_cluster(parent.location));
    let chain = dir_chain(laid, bpb, parent.location);
    ||| !data::run_exists(device, bpb.cluster_lba(c), bpb.sectors_per_cluster as int)
    ||| !table::chain_readable(device, bpb, chain)
    ||| flush::add_blocked(device, laid, bpb, chain)
}

/// Whether a sector is one that creating a directory in cluster `c` is for.
pub open spec fn create_dir_place(disk: Seq<Seq<u8>>, parent: FatDirInode, c: u32, i: int) -> bool {
    let bpb = parent.inner.bpb;
    let laid = dir_laid(disk, bpb, c, dir_cluster(parent.location));
    ||| flush::table_sector(bpb, i)
    ||| bpb.cluster_lba(c) <= i < bpb.cluster_lba(c) + bpb.sectors_per_cluster
    ||| flush::entry_place(laid, bpb, dir_chain(laid, bpb, parent.location), true, i)
}

/// Whether two disks differ at most in such sectors.
pub open spec fn create_dir_kept(
    a: Seq<Seq<u8>>,
    b: Seq<Seq<u8>>,
    parent: FatDirInode,
    c: u32,
) -> bool {
    &&& a.len() == b.len()
    &&& forall|i: int|
        0 <= i < a.len() && !create_dir_place(a, parent, c, i) ==> #[trigger] b[i] == a[i]
}

/// The console once a directory has been created in cluster `c`.
pub open spec fn created_log(out: Seq<u8>, name: Seq<char>, c: u32) -> Seq<u8> {
    out + serial::text("[FAT] Created dir: "@) + serial::text(name) + serial::text(" cluster="@)
        + serial::hex_text(c as u64) + serial::line_end()
}

/// What creating a directory does to the device: it gets the first free cluster, which
/// then holds "." and "..", and last its entry in the parent.
pub open spec fn create_dir_outcome<D: BlockDevice>(
    parent: FatDirInode,
    a: &D,
    b: &D,
    name: Seq<char>,
    before: Seq<u8>,
    after: Seq<u8>,
    r: Result<(), VfsError>,
) -> bool {
    let bpb = parent.inner.bpb;
    let disk = a.sectors();
    let readable = dir_readable(a, bpb, parent.location);
    let known = has_name(dir::listing(dir_raw(disk, bpb, parent.location)), name);
    let short = entry::short_name(vstd::utf8::encode_utf8(name));
    let free = flush::next_free(disk, bpb, 2);
    &&& table::same_geometry(a, b)
    &&& match r {
        Ok(_) => {
            &&& readable && !known
            &&& short is Some
            &&& free matches Some(c) && dir_created(disk, parent, c, short.unwrap()) matches Some(
                (made, _),
            ) && b.sectors() == made && after == created_log(before, name, c)
        },
        Err(VfsError::AlreadyExists) => readable && known && *b == *a && after == before,
        Err(VfsError::BadPath) => {
            &&& readable && !known
            &&& short is None
            &&& *b == *a
            &&& after == before
        },
        Err(VfsError::NoSpace) => {
            &&& readable && !known
            &&& short is Some
            &&& match free {
                Some(c) => {
                    let laid = dir_laid(disk, bpb, c, dir_cluster(parent.location));
                    &&& dir_created(disk, parent, c, short.unwrap()) is None
                    &&& create_dir_kept(disk, b.sectors(), parent, c)
                    &&& after == table::search_log(
                        before,
                        dir_chain(laid, bpb, parent.location).len() > 0,
                    )
                },
                None => b.sectors() == disk && after == table::search_log(before, true),
            }
        },
        Err(e) => {
            &&& e == VfsError::IoError
            &&& after == before
            &&& a.reliable() ==> !readable || (!known && short is Some && ((exists|c: u32|
                table::search_fails_at(a, bpb, 2, c)) || (free matches Some(c)
                && create_dir_blocked(a, parent, c))))
            &&& match free {
                Some(c) => create_dir_kept(disk, b.sectors(), parent, c),
                None => b.sectors() == disk,
            }
        },
    }
}

/// The first sector of a new directory.
fn build_first_entries(own: u32, parent: u32) -> (r: Vec<u8>)
    ensures
        r@ == first_entries(own, parent),
{
    let dot: [u8; 11] = [
        0x2E,
        0x20,
        0x20,
        0x20,
        0x20,
        0x20,
        0x20,
        0x20,
        0x20,
        0x20,
        0x20,
    ];
    let dotdot: [u8; 11] = [
        0x2E,
        0x2E,
        0x20,
        0x20,
        0x20,
        0x20,
        0x20,
        0x20,
        0x20,
        0x20,
        0x20,
    ];
    assert(dot@ =~= dot_name());
    assert(dotdot@ =~= dotdot_name());
    let first = FatDirEntry {
        name: String::new(),
        attributes: 0x10,
        first_cluster: own,
        size: 0,
        is_lfn: false,
    };
    let second = FatDirEntry {
        name: String::new(),
        attributes: 0x10,
        first_cluster: parent,
        size: 0,
        is_lfn: false,
    };
    let mut out: Vec<u8> = Vec::new();
    bytes::append(&mut out, &dir::build_entry(&first, dot));
    bytes::append(&mut out, &dir::build_entry(&second, dotdot));
    assert(out@ =~= first_entries(own, parent));
    out
}

/// Lays out a new directory in a cluster: "." and "..", then zeros.
fn lay_out_dir<D: BlockDevice>(device: &mut D, bpb: &FatBpb, c: u32, parent: u32) -> (r: Result<
    (),
    VfsError,
>)
    requires
        old(device).wf(),
        bpb.wf(),
    ensures
        table::same_geometry(old(device), final(device)),
        match r {
            Ok(_) => {
                &&& data::run_exists(
                    old(device),
                    bpb.cluster_lba(c),
                    bpb.sectors_per_cluster as int,
                )
                &&& final(device).sectors() == data::write_run(
                    old(device).sectors(),
                    bpb.cluster_lba(c),
                    bpb.sectors_per_cluster as int,
                    first_entries(c, parent),
                )
            },
            Err(e) => {
                &&& e == VfsError::IoError
                &&& old(device).reliable() ==> !data::run_exists(
                    old(device),
                    bpb.cluster_lba(c),
                    bpb.sectors_per_cluster as int,
                )
                &&& data::kept_around(
                    old(device).sectors(),
                    final(device).sectors(),
                    bpb.cluster_lba(c),
                    bpb.sectors_per_cluster as int,
                )
            },
        },
{
    let spc: u64 = bpb.sectors_per_cluster as u64;
    let start: u64 = bpb.cluster_to_sector(c);
    let ghost entries = first_entries(c, parent);
    let mut contents: Vec<u8> = build_first_entries(c, parent);
    while contents.len() < spc as usize * 512
        invariant
            spc == bpb.sectors_per_cluster,
            entries.len() == 64,
            64 <= contents@.len() <= spc * 512,
            contents@ == entries + Seq::new((contents@.len() - 64) as nat, |i: int| 0u8),
        decreases spc * 512 - contents@.len(),
    {
        let ghost had = contents@;
        contents.push(0);
        assert(contents@ =~= entries + Seq::new((contents@.len() - 64) as nat, |i: int| 0u8));
    }
    let ghost before = device.sectors();
    let r = data::write_sectors(device, start, spc, &contents);
    proof {
        assert forall|k: int| 0 <= k < spc implies #[trigger] data::padded_sector(contents@, k * 512)
            == data::padded_sector(entries, k * 512) by {
            assert(data::padded_sector(contents@, k * 512) =~= data::padded_sector(
                entries,
                k * 512,
            ));
        }
        assert(data::write_run(before, start as int, spc as int, contents@) =~= data::write_run(
            before,
            start as int,
            spc as int,
            entries,
        ));
    }
    r
}

/// Whether some entry has a given name.
fn lists_name(entries: &Vec<FatDirEntry>, name: &str) -> (r: bool)
    ensures
        r == has_name(dir::views(entries@), name@),
{
    let wanted: String = name.to_owned();
    let ghost list = dir::views(entries@);
    let mut i: usize = 0;
    while i < entries.len()
        invariant
            i <= entries@.len(),
            list == dir::views(entries@),
            wanted@ == name@,
            forall|k: int| 0 <= k < i ==> (#[trigger] list[k]).name != name@,
        decreases entries@.len() - i,
    {
        if entries[i].name == wanted {
            assert(list[i as int].name == name@);
            return true;
        }
        i = i + 1;
    }
    false
}

fn create_dir_on<D: BlockDevice>(
    device: &mut D,
    parent: FatDirInode,
    name: &str,
    out: &mut Vec<u8>,
) -> (r: Result<(), VfsError>)
    requires
        old(device).wf(),
        parent.inner.bpb.wf(),
    ensures
        create_dir_outcome(
            parent,
            old(device),
            final(device),
            name@,
            old(out)@,
            final(out)@,
            r,
        ),
{
    let bpb: FatBpb = parent.inner.bpb;
    let ghost before = *device;
    let raw: Vec<u8> = match read_dir_raw(device, &bpb, parent.location) {
        Ok(raw) => raw,
        Err(e) => {
            return Err(e);
        },
    };
    let entries: Vec<FatDirEntry> = match dir::parse_dir_entries(&raw) {
        Ok(entries) => entries,
        Err(e) => {
            return Err(e);
        },
    };
    if lists_name(&entries, name) {
        return Err(VfsError::AlreadyExists);
    }
    let name_83: [u8; 11] = match FatDirEntry::name_to_83(name) {
        Ok(short) => short,
        Err(e) => {
            return Err(e);
        },
    };
    let new_cluster: u32 = match table::allocate_cluster(device, &bpb, 2, out) {
        Ok(c) => c,
        Err(e) => {
            proof {
                lemma_failed_search(before.sectors(), device.sectors(), parent);
            }
            return Err(e);
        },
    };
    let ghost taken = *device;
    let parent_cluster: u32 = match parent.location {
        DirLocation::Fat16Root => 0,
        DirLocation::ClusterChain(c) => c,
    };
    proof {
        flush::lemma_next_free_unique(before.sectors(), bpb, 2, new_cluster);
        flush::lemma_set_tables_only(
            &before,
            before.sectors(),
            bpb,
            new_cluster,
            bpb.end_mark(),
        );
        assert(create_dir_kept(before.sectors(), taken.sectors(), parent, new_cluster));
    }
    match lay_out_dir(device, &bpb, new_cluster, parent_cluster) {
        Ok(_) => {},
        Err(e) => {
            assert(create_dir_kept(before.sectors(), device.sectors(), parent, new_cluster));
            return Err(e);
        },
    }
    let ghost laid = *device;
    assert(laid.sectors() == dir_laid(before.sectors(), bpb, new_cluster, parent_cluster));
    assert(create_dir_kept(before.sectors(), laid.sectors(), parent, new_cluster));
    let mut chain: Vec<u32> = match read_dir_chain(device, &bpb, parent.location) {
        Ok(chain) => chain,
        Err(e) => {
            proof {
                let chain = dir_chain(laid.sectors(), bpb, parent.location);
                assert(table::chain_readable(&before, bpb, chain) ==> table::chain_readable(
                    &laid,
                    bpb,
                    chain,
                ));
            }
            return Err(e);
        },
    };
    let ghost chain0 = chain@;
    let new_entry = FatDirEntry {
        name: String::new(),
        attributes: 0x10,
        first_cluster: new_cluster,
        size: 0,
        is_lfn: false,
    };
    let r = dir::add_dir_entry(device, &bpb, &mut chain, &new_entry, name_83, out);
    proof {
        flush::lemma_added(
            &laid,
            device,
            bpb,
            chain0,
            chain@,
            dir::bytes_of(new_entry@, name_83@),
            r,
        );
        flush::lemma_add_blocked(&before, &laid, bpb, chain0);
        assert(create_dir_kept(before.sectors(), device.sectors(), parent, new_cluster));
    }
    if r.is_ok() {
        serial::write_str(out, "[FAT] Created dir: ");
        serial::write_str(out, name);
        serial::write_str(out, " cluster=");
        serial::write_hex(out, new_cluster as u64);
        serial::write_nl(out);
    }
    r
}

/// A failed search for a cluster has changed at most table sectors.
proof fn lemma_failed_search(a: Seq<Seq<u8>>, b: Seq<Seq<u8>>, parent: FatDirInode)
    requires
        table::search_kept(a, b, parent.inner.bpb, 2) || a == b,
    ensures
        match flush::next_free(a, parent.inner.bpb, 2) {
            Some(c) => create_dir_kept(a, b, parent, c),
            None => a == b,
        },
{
    let bpb = parent.inner.bpb;
    if a != b {
        let c = choose|c: u32|
            {
                &&& #[trigger] table::search_reaches(a, bpb, 2, c)
                &&& table::fat_get(a, bpb, c) == 0
                &&& table::kept_but(a, b, bpb, seq![c])
            };
        flush::lemma_next_free_unique(a, bpb, 2, c);
        flush::lemma_tables_only(a, b, bpb, seq![c]);
    }
}

/// What deleting a name does to the device. In the FAT16 root only the entry is
/// marked; elsewhere the clusters of the file are freed first.
pub open spec fn delete_outcome<D: BlockDevice>(
    parent: FatDirInode,
    a: &D,
    b: &D,
    name: Seq<char>,
    before: Seq<u8>,
    after: Seq<u8>,
    r: Result<(), VfsError>,
) -> bool {
    let bpb = parent.inner.bpb;
    let disk = a.sectors();
    let chain = dir_chain(disk, bpb, parent.location);
    let start = bpb.base_sector + bpb.root_dir_start_sector;
    let count = bpb.root_dir_sectors as int;
    &&& table::same_geometry(a, b)
    &&& after == if r is Ok && chain.len() > 0 {
        before + serial::text("[FAT] Deleted: "@) + serial::text(name) + serial::line_end()
    } else {
        before
    }
    &&& if chain.len() == 0 {
        let raw = data::run_bytes(disk, start, count);
        match (r, dir::locate(raw, name, false)) {
            (Ok(_), Some((at, _))) => data::run_exists(a, start, count) && b.sectors()
                == data::write_run(disk, start, count, raw.update(at, 0xE5)),
            (Ok(_), None) => false,
            (Err(VfsError::NotFound), found) => found is None && data::run_exists(a, start, count)
                && *b == *a,
            (Err(e), _) => {
                &&& e == VfsError::IoError
                &&& a.reliable() ==> !(dir_chain_readable(a, bpb, parent.location)
                    && data::run_exists(a, start, count))
                &&& data::kept_around(disk, b.sectors(), start, count)
            },
        }
    } else {
        let raw = data::chain_bytes(disk, bpb, chain);
        match (r, dir::locate(raw, name, true)) {
            (Ok(_), Some((_, e))) => {
                let clusters = if e.first_cluster >= 2 {
                    table::cluster_chain(disk, bpb, e.first_cluster)
                } else {
                    Seq::empty()
                };
                let freed = table::fat_fill(disk, bpb, clusters, 0);
                let left = data::chain_bytes(freed, bpb, chain);
                dir::locate(left, name, true) matches Some((at, _)) && b.sectors() == dir::flushed(
                    freed,
                    bpb,
                    chain,
                    left.update(at, 0xE5),
                    at,
                )
            },
            (Ok(_), None) => false,
            (Err(VfsError::NotFound), Some((_, e))) => {
                let clusters = if e.first_cluster >= 2 {
                    table::cluster_chain(disk, bpb, e.first_cluster)
                } else {
                    Seq::empty()
                };
                let freed = table::fat_fill(disk, bpb, clusters, 0);
                &&& b.sectors() == freed
                &&& dir::locate(data::chain_bytes(freed, bpb, chain), name, true) is None
            },
            (Err(VfsError::NotFound), None) => *b == *a,
            (Err(e), found) => {
                &&& e == VfsError::IoError
                &&& a.reliable() ==> !dir_readable(a, bpb, parent.location) || (
                found matches Some((_, f)) && delete_blocked(a, bpb, chain, name, f))
                &&& disk == b.sectors() || (found matches Some((_, f)) && delete_kept(
                    disk,
                    b.sectors(),
                    bpb,
                    chain,
                    name,
                    f,
                ))
            },
        }
    }
}

/// What a failed attempt to delete an entry leaves as it was: everything but the table
/// entries of the file's clusters or, once these are freed, the sector of the entry.
pub open spec fn delete_kept(
    a: Seq<Seq<u8>>,
    b: Seq<Seq<u8>>,
    bpb: FatBpb,
    chain: Seq<u32>,
    name: Seq<char>,
    e: EntryView,
) -> bool {
    let clusters = if e.first_cluster >= 2 {
        table::cluster_chain(a, bpb, e.first_cluster)
    } else {
        Seq::empty()
    };
    let freed = table::fat_fill(a, bpb, clusters, 0);
    let left = data::chain_bytes(freed, bpb, chain);
    ||| table::kept_but(a, b, bpb, clusters)
    ||| freed == b
    ||| dir::locate(left, name, true) matches Some((at, _)) && dir::kept_sector(
        freed,
        b,
        dir::dir_lba(bpb, chain, at),
    )
}

/// Whether deleting an entry of a directory with a chain meets a sector that does not
/// exist.
pub open spec fn delete_blocked<D: BlockDevice>(
    device: &D,
    bpb: FatBpb,
    chain: Seq<u32>,
    name: Seq<char>,
    e: EntryView,
) -> bool {
    let disk = device.sectors();
    let clusters = if e.first_cluster >= 2 {
        table::cluster_chain(disk, bpb, e.first_cluster)
    } else {
        Seq::empty()
    };
    let freed = table::fat_fill(disk, bpb, clusters, 0);
    ||| !table::chain_readable(device, bpb, clusters)
    ||| !table::chain_writable(device, bpb, clusters)
    ||| dir::locate(data::chain_bytes(freed, bpb, chain), name, true) matches Some((at, _))
        && !table::has_sector(device, dir::dir_lba(bpb, chain, at))
}

fn delete_on<D: BlockDevice>(
    device: &mut D,
    parent: FatDirInode,
    name: &str,
    out: &mut Vec<u8>,
) -> (r: Result<(), VfsError>)
    requires
        old(device).wf(),
        parent.inner.bpb.wf(),
    ensures
        delete_outcome(
            parent,
            old(device),
            final(device),
            name@,
            old(out)@,
            final(out)@,
            r,
        ),
{
    let bpb: FatBpb = parent.inner.bpb;
    let chain: Vec<u32> = match read_dir_chain(device, &bpb, parent.location) {
        Ok(chain) => chain,
        Err(e) => {
            return Err(e);
        },
    };
    if chain.is_empty() {
        let start: u64 = bpb.base_sector as u64 + bpb.root_dir_start_sector;
        let count: u64 = bpb.root_dir_sectors as u64;
        let mut raw: Vec<u8> = match data::read_sectors(device, start, count) {
            Ok(raw) => raw,
            Err(e) => {
                return Err(e);
            },
        };
        return match dir::search_dir(&raw, name, false) {
            Some((offset, _)) => {
                raw.set(offset, 0xE5);
                data::write_sectors(device, start, count, &raw)
            },
            None => Err(VfsError::NotFound),
        };
    }
    let (e, _, _): (FatDirEntry, usize, Vec<u8>) = match dir::lookup_dir_entry(
        device,
        &bpb,
        &chain,
        name,
    ) {
        Ok(found) => found,
        Err(e) => {
            return Err(e);
        },
    };
    let ghost before = *device;
    if e.first_cluster >= 2 {
        match table::free_cluster_chain(device, &bpb, e.first_cluster) {
            Ok(_) => {},
            Err(e) => {
                return Err(e);
            },
        }
    } else {
        assert(table::fat_fill(before.sectors(), bpb, Seq::empty(), 0) == before.sectors());
    }
    proof {
        let n = data::sectors_in(bpb, chain@);
        assert(data::sectors_exist(&before, bpb, chain@, n));
        assert(data::sectors_exist(device, bpb, chain@, n));
    }
    match dir::delete_dir_entry(device, &bpb, &chain, name) {
        Ok(_) => {
            serial::write_str(out, "[FAT] Deleted: ");
            serial::write_str(out, name);
            serial::write_nl(out);
            Ok(())
        },
        Err(e) => Err(e),
    }
}

impl FatDirInode {
    /// Creates a directory.
    pub fn create_child_dir<D: BlockDevice>(
        &self,
        registry: &mut BlockDeviceRegistry<D>,
        name: &str,
        out: &mut Vec<u8>,
    ) -> (r: Result<(), VfsError>)
        requires
            mounted(old(registry), self.inner),
        ensures
            mounted(final(registry), self.inner),
            others_same(old(registry), final(registry), self.inner.device_id),
            match (
                old(registry).lookup(self.inner.device_id),
                final(registry).lookup(self.inner.device_id),
            ) {
                (Some(a), Some(b)) => create_dir_outcome(
                    *self,
                    &a,
                    &b,
                    name@,
                    old(out)@,
                    final(out)@,
                    r,
                ),
                (None, None) => r == Err::<(), VfsError>(VfsError::IoError) && final(out)@
                    == old(out)@,
                _ => false,
            },
    {
        match registry.get_mut(self.inner.device_id) {
            Some(device) => create_dir_on(device, *self, name, out),
            None => Err(VfsError::IoError),
        }
    }

    /// Deletes the entry with a given name. The clusters that it names are freed first,
    /// except in the FAT16 root: there they stay taken.
    pub fn delete_child_file<D: BlockDevice>(
        &self,
        registry: &mut BlockDeviceRegistry<D>,
        name: &str,
        out: &mut Vec<u8>,
    ) -> (r: Result<(), VfsError>)
        requires
            mounted(old(registry), self.inner),
        ensures
            mounted(final(registry), self.inner),
            others_same(old(registry), final(registry), self.inner.device_id),
            match (
                old(registry).lookup(self.inner.device_id),
                final(registry).lookup(self.inner.device_id),
            ) {
                (Some(a), Some(b)) => delete_outcome(
                    *self,
                    &a,
                    &b,
                    name@,
                    old(out)@,
                    final(out)@,
                    r,
                ),
                (None, None) => r == Err::<(), VfsError>(VfsError::IoError) && final(out)@
                    == old(out)@,
                _ => false,
            },
    {
        match registry.get_mut(self.inner.device_id) {
            Some(device) => delete_on(device, *self, name, out),
            None => Err(VfsError::IoError),
        }
    }
}

impl FatFileInode {
    /// A file has no children.
    pub fn lookup(&self, _name: &str) -> (r: Result<FatInode, VfsError>)
        ensures
            r == Err::<FatInode, VfsError>(VfsError::NotDirectory),
    {
        Err(VfsError::NotDirectory)
    }

    /// Opens the file for reading: all of its contents.
    pub fn open<D: BlockDevice>(&self, registry: &BlockDeviceRegistry<D>) -> (r: Result<
        FatFileHandle,
        VfsError,
    >)
        requires
            mounted(registry, self.inner),
        ensures
            match (r, registry.lookup(self.inner.device_id)) {
                (Ok(h), Some(d)) => {
                    &&& file_readable(&d, self.inner.bpb, self.first_cluster, self.size)
                    &&& h.data@ == file_bytes(
                        d.sectors(),
                        self.inner.bpb,
                        self.first_cluster,
                        self.size,
                    )
                    &&& h.inner == self.inner
                    &&& h.pos == 0
                    &&& h.first_cluster == self.first_cluster
                    &&& h.disk_size == self.size
                    &&& h.dir_chain is None
                    &&& h.dir_entry_name@ == Seq::<char>::empty()
                    &&& !h.dirty
                    &&& !h.is_new
                },
                (Ok(_), None) => false,
                (Err(e), Some(d)) => e == VfsError::IoError && (d.reliable() ==> !file_readable(
                    &d,
                    self.inner.bpb,
                    self.first_cluster,
                    self.size,
                )),
                (Err(e), None) => e == VfsError::IoError,
            },
    {
        let device: &D = match get_device(registry, self.inner.device_id) {
            Some(d) => d,
            None => {
                return Err(VfsError::IoError);
            },
        };
        match read_file(device, &self.inner.bpb, self.first_cluster, self.size) {
            Ok(contents) => Ok(
                FatFileHandle {
                    inner: self.inner,
                    data: contents,
                    pos: 0,
                    first_cluster: self.first_cluster,
                    disk_size: self.size,
                    dir_chain: None,
                    dir_entry_name: String::new(),
                    dirty: false,
                    is_new: false,
                },
            ),
            Err(e) => Err(e),
        }
    }

    pub fn is_dir(&self) -> (r: bool)
        ensures
            !r,
    {
        false
    }

    pub fn is_file(&self) -> (r: bool)
        ensures
            r,
    {
        true
    }

    pub fn size(&self) -> (r: u64)
        ensures
            r == self.size,
    {
        self.size as u64
    }
}

} // verus!
