//! Mounting a volume.
use vstd::prelude::*;

use crate::block::registry::{get_device, BlockDeviceRegistry};
use crate::block::BlockDevice;
use crate::bytes;
use crate::fat32::bpb;
use crate::fat32::bpb::{FatBpb, FatVariant};
use crate::fat32::file::FatFileHandle;
use crate::fat32::inode;
use crate::fat32::inode::{DirLocation, FatDirInode, FatInner};
use crate::fat32::table;
use crate::serial;
use crate::vfs::VfsError;

verus! {

/// FAT filesystem instance.
pub struct Fat32Fs {
    pub inner: FatInner,
}

/// Whether a sector ends in the boot signature.
pub open spec fn signed(sector: Seq<u8>) -> bool {
    sector[510] == 0x55 && sector[511] == 0xAA
}

/// Whether a partition type is one of the FAT16 and FAT32 types.
pub open spec fn is_fat_type(ptype: u8) -> bool {
    ptype == 0x04 || ptype == 0x06 || ptype == 0x0E || ptype == 0x0B || ptype == 0x0C
}

/// The start of the first FAT partition among the entries of a partition table from the
/// `k`-th on.
pub open spec fn fat_partition(boot: Seq<u8>, k: int) -> Option<u32>
    decreases 4 - k,
{
    if k >= 4 {
        None
    } else if is_fat_type(boot[446 + k * 16 + 4]) {
        Some(bytes::le32(boot, 446 + k * 16 + 8))
    } else {
        fat_partition(boot, k + 1)
    }
}

/// The volume on a disk: in the first FAT partition, or, if there is none, over the
/// whole disk.
pub open spec fn volume_on(disk: Seq<Seq<u8>>) -> Option<FatBpb> {
    let boot = disk[0];
    if !signed(boot) {
        None
    } else {
        match fat_partition(boot, 0) {
            Some(lba) => if signed(disk[lba as int]) {
                bpb::bpb_of(disk[lba as int], lba)
            } else {
                None
            },
            None => if boot[0] == 0xEB || boot[0] == 0xE9 {
                bpb::bpb_of(boot, 0)
            } else {
                None
            },
        }
    }
}

/// Whether the sectors that mounting reads exist.
pub open spec fn mountable<D: BlockDevice>(device: &D) -> bool {
    &&& table::has_sector(device, 0)
    &&& signed(device.sectors()[0]) ==> (fat_partition(device.sectors()[0], 0) matches Some(lba)
        ==> table::has_sector(device, lba as int))
}

/// The type of the first FAT partition among the entries of a partition table from the
/// `k`-th on.
pub open spec fn partition_type(boot: Seq<u8>, k: int) -> u8
    decreases 4 - k,
{
    if k >= 4 {
        0
    } else if is_fat_type(boot[446 + k * 16 + 4]) {
        boot[446 + k * 16 + 4]
    } else {
        partition_type(boot, k + 1)
    }
}

/// The console once the volume on a disk has been looked for, from the boot sector on.
/// `second` says whether the boot sector of the partition, if there is one, was read.
pub open spec fn with_volume(out: Seq<u8>, disk: Seq<Seq<u8>>, second: bool) -> Seq<u8> {
    let boot = disk[0];
    if !signed(boot) {
        out + serial::text("[FAT] Invalid boot signature"@) + serial::line_end()
    } else {
        match fat_partition(boot, 0) {
            Some(lba) => {
                let found = out + serial::text("[FAT] MBR partition type=0x"@) + serial::hex_text(
                    partition_type(boot, 0) as u64,
                ) + serial::text(" at LBA=0x"@) + serial::hex_text(lba as u64)
                    + serial::line_end();
                if !second {
                    found
                } else if signed(disk[lba as int]) {
                    bpb::with_parsed(found, disk[lba as int], lba)
                } else {
                    found + serial::text("[FAT] Partition boot sector: invalid signature"@)
                        + serial::line_end()
                }
            },
            None => if boot[0] == 0xEB || boot[0] == 0xE9 {
                bpb::with_parsed(out, boot, 0)
            } else {
                out + serial::text("[FAT] Not FAT BPB (jmp=0x"@) + serial::hex_text(
                    boot[0] as u64,
                ) + serial::text("), no FAT partition in MBR"@) + serial::line_end()
            },
        }
    }
}

/// The console once a device has been mounted, or not. `first` says whether its first sector
/// was read, and `second` whether the boot sector of the partition was.
pub open spec fn with_mount<D: BlockDevice>(
    out: Seq<u8>,
    device: &D,
    first: bool,
    second: bool,
) -> Seq<u8> {
    let head = out + serial::text("[FAT] dev="@) + serial::text(device.label()) + serial::text(
        " ssize="@,
    ) + serial::hex_text(device.sector_bytes() as u64) + serial::text(" tot="@)
        + serial::hex_text(device.sectors().len() as u64) + serial::line_end();
    if first {
        with_volume(head, device.sectors(), second)
    } else {
        head
    }
}

/// Whether this can be on the console once a device has been mounted, or not. On a reliable
/// device it depends on the sectors alone; otherwise reads can fail. A mount that succeeded
/// has read both sectors.
pub open spec fn mount_said<D: BlockDevice>(
    device: &D,
    before: Seq<u8>,
    after: Seq<u8>,
    mounted: bool,
) -> bool {
    exists|first: bool, second: bool|
        {
            &&& after == #[trigger] with_mount(before, device, first, second)
            &&& mounted ==> first && second
            &&& device.reliable() ==> first == table::has_sector(device, 0)
            &&& device.reliable() && first ==> (fat_partition(
                device.sectors()[0],
                0,
            ) matches Some(lba) ==> second == table::has_sector(device, lba as int))
        }
}

/// Looks for the volume on a device.
fn mount<D: BlockDevice>(device: &D, device_id: usize, out: &mut Vec<u8>) -> (r: Result<
    Fat32Fs,
    VfsError,
>)
    requires
        device.wf(),
    ensures
        match r {
            Ok(fs) => {
                &&& mountable(device)
                &&& fs.inner.device_id == device_id
                &&& volume_on(device.sectors()) == Some(fs.inner.bpb)
                &&& fs.inner.bpb.wf()
            },
            Err(e) => e == VfsError::IoError && (device.reliable() ==> !mountable(device)
                || volume_on(device.sectors()) is None),
        },
        mount_said(device, old(out)@, final(out)@, r is Ok),
{
    serial::write_str(out, "[FAT] dev=");
    serial::write_str(out, device.name());
    serial::write_str(out, " ssize=");
    serial::write_hex(out, device.sector_size() as u64);
    serial::write_str(out, " tot=");
    serial::write_hex(out, device.total_sectors());
    serial::write_nl(out);
    let ghost disk = device.sectors();
    let mut boot: [u8; 512] = match table::read_block(device, 0) {
        Ok(b) => b,
        Err(e) => {
            assert(out@ == with_mount(old(out)@, device, false, false));
            return Err(e);
        },
    };
    if boot[510] != 0x55 || boot[511] != 0xAA {
        serial::write_str_nl(out, "[FAT] Invalid boot signature");
        proof {
            let second = fat_partition(disk[0], 0) matches Some(lba) && table::has_sector(
                device,
                lba as int,
            );
            assert(out@ == with_mount(old(out)@, device, true, second));
        }
        return Err(VfsError::IoError);
    }
    let mut partition: Option<u32> = None;
    let mut ptype: u8 = 0;
    let mut k: usize = 0;
    while k < 4 && partition.is_none()
        invariant
            k <= 4,
            fat_partition(boot@, 0) == match partition {
                Some(lba) => Some(lba),
                None => fat_partition(boot@, k as int),
            },
            partition_type(boot@, 0) == match partition {
                Some(lba) => ptype,
                None => partition_type(boot@, k as int),
            },
        decreases 4 - k,
    {
        let base: usize = 446 + k * 16;
        let t: u8 = boot[base + 4];
        if t == 0x04 || t == 0x06 || t == 0x0E || t == 0x0B || t == 0x0C {
            partition = Some(bytes::read_u32(&boot, base + 8));
            ptype = t;
        }
        k = k + 1;
    }
    let mut base_sector: u32 = 0;
    match partition {
        Some(lba) => {
            serial::write_str(out, "[FAT] MBR partition type=0x");
            serial::write_hex(out, ptype as u64);
            serial::write_str(out, " at LBA=0x");
            serial::write_hex(out, lba as u64);
            serial::write_nl(out);
            boot = match table::read_block(device, lba as u64) {
                Ok(b) => b,
                Err(e) => {
                    assert(out@ == with_mount(old(out)@, device, true, false));
                    return Err(e);
                },
            };
            if boot[510] != 0x55 || boot[511] != 0xAA {
                serial::write_str_nl(out, "[FAT] Partition boot sector: invalid signature");
                assert(out@ == with_mount(old(out)@, device, true, true));
                return Err(VfsError::IoError);
            }
            base_sector = lba;
        },
        None => {
            if boot[0] != 0xEB && boot[0] != 0xE9 {
                serial::write_str(out, "[FAT] Not FAT BPB (jmp=0x");
                serial::write_hex(out, boot[0] as u64);
                serial::write_str_nl(out, "), no FAT partition in MBR");
                assert(out@ == with_mount(old(out)@, device, true, true));
                return Err(VfsError::IoError);
            }
        },
    }
    let parsed = FatBpb::parse(&boot, base_sector, out);
    assert(out@ == with_mount(old(out)@, device, true, true));
    match parsed {
        Ok(bpb) => Ok(Fat32Fs { inner: FatInner { device_id, bpb } }),
        Err(e) => Err(e),
    }
}

impl Fat32Fs {
    /// Create a new FAT filesystem from a block device. What was found is noted on the
    /// console.
    pub fn new<D: BlockDevice>(
        registry: &BlockDeviceRegistry<D>,
        device_id: usize,
        out: &mut Vec<u8>,
    ) -> (r: Result<Fat32Fs, VfsError>)
        requires
            registry.wf(),
            registry.lookup(device_id) matches Some(d) ==> d.wf(),
        ensures
            match (r, registry.lookup(device_id)) {
                (Ok(fs), Some(d)) => {
                    &&& mountable(&d)
                    &&& fs.inner.device_id == device_id
                    &&& volume_on(d.sectors()) == Some(fs.inner.bpb)
                    &&& fs.inner.bpb.wf()
                },
                (Ok(_), None) => false,
                (Err(e), Some(d)) => e == VfsError::IoError && (d.reliable() ==> !mountable(&d)
                    || volume_on(d.sectors()) is None),
                (Err(e), None) => e == VfsError::IoError,
            },
            match registry.lookup(device_id) {
                Some(d) => mount_said(&d, old(out)@, final(out)@, r is Ok),
                None => final(out)@ == old(out)@,
            },
    {
        let device: &D = match get_device(registry, device_id) {
            Some(d) => d,
            None => {
                return Err(VfsError::IoError);
            },
        };
        mount(device, device_id, out)
    }

    pub fn name(&self) -> (r: &str)
        ensures
            r@ == self.inner.bpb.variant.text(),
    {
        self.inner.bpb.variant.as_str()
    }

    pub open spec fn root_dir(&self) -> FatDirInode {
        FatDirInode {
            inner: self.inner,
            location: match self.inner.bpb.variant {
                FatVariant::Fat16 => DirLocation::Fat16Root,
                FatVariant::Fat32 => DirLocation::ClusterChain(self.inner.bpb.root_cluster),
            },
        }
    }

    /// The root directory.
    pub fn root(&self) -> (r: FatDirInode)
        ensures
            r == self.root_dir(),
    {
        let location: DirLocation = match self.inner.bpb.variant {
            FatVariant::Fat16 => DirLocation::Fat16Root,
            FatVariant::Fat32 => DirLocation::ClusterChain(self.inner.bpb.root_cluster),
        };
        FatDirInode { inner: self.inner, location }
    }

    /// Opens a file of the root directory for writing, or a new one.
    pub fn create_file<D: BlockDevice>(&self, registry: &BlockDeviceRegistry<D>, name: &str) -> (r:
        Result<FatFileHandle, VfsError>)
        requires
            inode::mounted(registry, self.inner),
        ensures
            inode::create_file_outcome(
                self.root_dir(),
                registry.lookup(self.inner.device_id),
                name@,
                r,
            ),
    {
        self.root().create_child_file(registry, name)
    }

    /// Creates a directory in the root directory.
    pub fn create_dir<D: BlockDevice>(
        &self,
        registry: &mut BlockDeviceRegistry<D>,
        name: &str,
        out: &mut Vec<u8>,
    ) -> (r: Result<(), VfsError>)
        requires
            inode::mounted(old(registry), self.inner),
        ensures
            inode::mounted(final(registry), self.inner),
            inode::others_same(old(registry), final(registry), self.inner.device_id),
            match (
                old(registry).lookup(self.inner.device_id),
                final(registry).lookup(self.inner.device_id),
            ) {
                (Some(a), Some(b)) => inode::create_dir_outcome(
                    self.root_dir(),
                    &a,
                    &b,
                    name@,
                    old(out)@,
                    final(out)@,
                    r,
                ),
                (None, None) => r == Err::<(), VfsError>(VfsError::IoError) && final(out)@
                    == old(out)@,
                _ => false,
            },
    {
        self.root().create_child_dir(registry, name, out)
    }
}

} // verus!
