//! What adding and changing directory entries does to a volume.
use vstd::prelude::*;

use crate::block::BlockDevice;
use crate::bytes;
use crate::fat32::bpb::{FatBpb, FatVariant};
use crate::fat32::data;
use crate::fat32::dir;
use crate::fat32::fs::Fat32Fs;
use crate::fat32::inode;
use crate::fat32::inode::DirLocation;
use crate::fat32::laws;
use crate::fat32::table;
use crate::laws::fat_directory::{law_entry_pointed, law_first_free_slot, law_first_with_name};
use crate::vfs::VfsError;

verus! {

/// A new entry stands in the first free slot of its directory afterwards, and every other byte
/// of the directory is as it was.
pub proof fn law_entry_added<D: BlockDevice>(
    a: &D,
    b: &D,
    bpb: FatBpb,
    chain: Seq<u32>,
    longer: Seq<u32>,
    entry: Seq<u8>,
    i: int,
)
    requires
        dir::add_outcome(a, b, bpb, chain, longer, entry, Ok::<(), VfsError>(())),
        laws::well_laid(a.sectors(), bpb),
        laws::sound_dir(a.sectors(), bpb, chain),
        entry.len() == 32,
        dir::free_slot(dir::held_bytes(a.sectors(), bpb, chain), 0) is Some,
    ensures
        ({
            let raw = dir::held_bytes(a.sectors(), bpb, chain);
            let left = dir::held_bytes(b.sectors(), bpb, chain);
            let at = dir::free_slot(raw, 0).unwrap();
            &&& longer == chain
            &&& left.len() == raw.len()
            &&& raw[at] == 0 || raw[at] == 0xE5
            &&& at % 32 == 0
            &&& left.subrange(at, at + 32) == entry
            &&& 0 <= i < raw.len() && (i < at || i >= at + 32) ==> left[i] == raw[i]
        }),
{
    let raw = dir::held_bytes(a.sectors(), bpb, chain);
    law_first_free_slot(raw, 0);
    let at = dir::free_slot(raw, 0).unwrap();
    let new = bytes::overlay(raw, at, entry);
    bytes::law_patch_in_place(raw, at, entry, i);
    laws::lemma_slot_written(a.sectors(), bpb, chain, Seq::empty(), new, at);
    assert(b.sectors() == dir::slot_flushed(a.sectors(), bpb, chain, new, at));
}

/// An entry that is pointed to new contents is the first with its name. Afterwards it says the
/// new cluster and the new size, and every other byte of the directory is as it was.
pub proof fn law_entry_changed<D: BlockDevice>(
    a: &D,
    b: &D,
    bpb: FatBpb,
    chain: Seq<u32>,
    name: Seq<char>,
    first_cluster: u32,
    size: u32,
    i: int,
)
    requires
        dir::point_outcome(
            a,
            b,
            bpb,
            chain,
            name,
            first_cluster,
            size,
            Ok::<(), VfsError>(()),
        ),
        laws::well_laid(a.sectors(), bpb),
        laws::sound_dir(a.sectors(), bpb, chain),
    ensures
        ({
            let raw = dir::held_bytes(a.sectors(), bpb, chain);
            let left = dir::held_bytes(b.sectors(), bpb, chain);
            dir::locate(raw, name, true) matches Some((at, e)) && {
                &&& e.name == name
                &&& left.len() == raw.len()
                &&& bytes::has16(left, at + 20, first_cluster as int / 65536)
                &&& bytes::has16(left, at + 26, first_cluster as int % 65536)
                &&& bytes::has32(left, at + 28, size as int)
                &&& 0 <= i < raw.len() && i != at + 20 && i != at + 21 && !(at + 26 <= i < at + 32)
                    ==> left[i] == raw[i]
            }
        }),
{
    let raw = dir::held_bytes(a.sectors(), bpb, chain);
    let (at, e) = dir::locate(raw, name, true).unwrap();
    let list = dir::scan(raw, 0, Seq::empty(), true);
    laws::lemma_scan_positions(raw, 0, Seq::empty(), true);
    law_first_with_name(list, name);
    let k = choose|k: int|
        0 <= k < list.len() && #[trigger] list[k] == (at, e) && e.name == name && forall|j: int|
            0 <= j < k ==> (#[trigger] list[j]).1.name != name;
    assert(list[k].0 == at);
    let new = dir::pointed(raw, at, first_cluster, size);
    law_entry_pointed(raw, at, first_cluster, size, i);
    laws::lemma_slot_written(a.sectors(), bpb, chain, Seq::empty(), new, at);
}

/// An attempt that finds no place, or no entry with the name, changes nothing.
pub proof fn law_nothing_changed<D: BlockDevice>(
    a: &D,
    b: &D,
    bpb: FatBpb,
    chain: Seq<u32>,
    longer: Seq<u32>,
    entry: Seq<u8>,
    name: Seq<char>,
    first_cluster: u32,
    size: u32,
)
    ensures
        dir::add_outcome(a, b, bpb, chain, longer, entry, Err::<(), VfsError>(VfsError::NoSpace))
            ==> longer == chain && b.sectors() == a.sectors() && dir::free_slot(
            dir::held_bytes(a.sectors(), bpb, chain),
            0,
        ) is None,
        dir::point_outcome(
            a,
            b,
            bpb,
            chain,
            name,
            first_cluster,
            size,
            Err::<(), VfsError>(VfsError::NotFound),
        ) ==> b.sectors() == a.sectors() && dir::locate(
            dir::held_bytes(a.sectors(), bpb, chain),
            name,
            true,
        ) is None,
{
}

/// The root directory of a FAT16 volume is its fixed area, that of a FAT32 volume starts at
/// the cluster that the boot sector names.
pub proof fn law_root_of_volume(fs: Fat32Fs)
    ensures
        fs.root_dir().inner == fs.inner,
        fs.inner.bpb.variant == FatVariant::Fat16 ==> fs.root_dir().location
            == DirLocation::Fat16Root,
        fs.inner.bpb.variant == FatVariant::Fat32 ==> fs.root_dir().location
            == DirLocation::ClusterChain(fs.inner.bpb.root_cluster),
{
}

/// A directory can be read if the entries of its clusters can be and the device has all its
/// sectors.
pub proof fn law_directory_within_reach<D: BlockDevice>(device: &D, bpb: FatBpb, first: u32)
    requires
        device.sector_bytes() == 512,
        bpb.sectors_per_cluster > 0,
    ensures
        ({
            let chain = table::cluster_chain(device.sectors(), bpb, first);
            (forall|k: int|
                0 <= k < chain.len() ==> table::entry_readable(device, bpb, #[trigger] chain[k])
                    && 0 <= bpb.cluster_lba(chain[k]) && bpb.cluster_lba(chain[k])
                    + bpb.sectors_per_cluster <= device.sectors().len()) ==> inode::dir_readable(
                device,
                bpb,
                DirLocation::ClusterChain(first),
            )
        }),
        bpb.base_sector + bpb.root_dir_start_sector + bpb.root_dir_sectors
            <= device.sectors().len() ==> inode::dir_readable(device, bpb, DirLocation::Fat16Root),
{
    let chain = table::cluster_chain(device.sectors(), bpb, first);
    let spc = bpb.sectors_per_cluster as int;
    if forall|k: int|
        0 <= k < chain.len() ==> table::entry_readable(device, bpb, #[trigger] chain[k]) && 0
            <= bpb.cluster_lba(chain[k]) && bpb.cluster_lba(chain[k]) + bpb.sectors_per_cluster
            <= device.sectors().len() {
        assert forall|k: int| 0 <= k < data::sectors_in(bpb, chain) implies table::has_sector(
            device,
            #[trigger] data::chain_lba(bpb, chain, k),
        ) by {
            data::lemma_index_bound(k, spc, chain.len() as int);
            assert(table::entry_readable(device, bpb, chain[k / spc]));
        }
    }
}

} // verus!
