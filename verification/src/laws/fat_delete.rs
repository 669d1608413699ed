//! What deleting a file does to a volume.
use vstd::prelude::*;

use crate::block::BlockDevice;
use crate::fat32::bpb::FatBpb;
use crate::fat32::data;
use crate::fat32::dir;
use crate::fat32::entry::EntryView;
use crate::fat32::inode;
use crate::fat32::inode::FatDirInode;
use crate::fat32::laws;
use crate::fat32::table;
use crate::vfs::VfsError;

verus! {

/// Clusters whose entries are all set to 0 are free, and every other entry of the table is as
/// it was.
pub proof fn law_fill_frees(disk: Seq<Seq<u8>>, bpb: FatBpb, chain: Seq<u32>, other: u32)
    requires
        bpb.num_fats >= 1,
        data::full_sectors(disk),
        forall|i: int|
            0 <= i < chain.len() ==> table::in_table(bpb, #[trigger] chain[i])
                && table::entry_on_disk(disk, bpb, chain[i]),
        table::in_table(bpb, other),
        0 <= table::fat_lba(bpb, 0, other) < disk.len(),
    ensures
        ({
            let freed = table::fat_fill(disk, bpb, chain, 0);
            &&& chain.contains(other) ==> table::fat_get(freed, bpb, other) == 0
            &&& !chain.contains(other) ==> table::fat_get(freed, bpb, other) == table::fat_get(
                disk,
                bpb,
                other,
            )
            &&& freed.len() == disk.len()
            &&& data::full_sectors(freed)
        }),
    decreases chain.len(),
{
    if chain.len() > 0 {
        let front = chain.drop_last();
        let last = chain.last();
        assert(last == chain[chain.len() - 1]);
        assert forall|i: int| 0 <= i < front.len() implies table::in_table(
            bpb,
            #[trigger] front[i],
        ) && table::entry_on_disk(disk, bpb, front[i]) by {
            assert(front[i] == chain[i]);
        }
        law_fill_frees(disk, bpb, front, other);
        let before = table::fat_fill(disk, bpb, front, 0);
        assert(table::entry_on_disk(before, bpb, last));
        table::law_fat_read_after_write(before, bpb, last, 0, other, 0);
        assert(chain.contains(other) ==> front.contains(other) || other == last) by {
            if chain.contains(other) && other != last {
                let i = chain.index_of(other);
                assert(front[i] == other);
            }
        }
        assert(front.contains(other) ==> chain.contains(other)) by {
            if front.contains(other) {
                let i = front.index_of(other);
                assert(chain[i] == other);
            }
        }
        laws::lemma_set_behind(before, bpb, last, 0);
    }
}

/// The clusters of a file by its entry.
pub open spec fn clusters_of(disk: Seq<Seq<u8>>, bpb: FatBpb, e: EntryView) -> Seq<u32> {
    if e.first_cluster >= 2 {
        table::cluster_chain(disk, bpb, e.first_cluster)
    } else {
        Seq::empty()
    }
}

/// A file that was deleted from a directory with a chain is gone from it, and every other
/// entry is there as before. All its clusters are free, and the entry of no other cluster has
/// changed.
pub proof fn law_delete_frees<D: BlockDevice>(
    parent: FatDirInode,
    a: &D,
    b: &D,
    name: Seq<char>,
    before: Seq<u8>,
    after: Seq<u8>,
    c: u32,
)
    requires
        inode::delete_outcome(parent, a, b, name, before, after, Ok::<(), VfsError>(())),
        laws::well_laid(a.sectors(), parent.inner.bpb),
        inode::dir_chain(a.sectors(), parent.inner.bpb, parent.location).len() > 0,
        laws::sound_dir(
            a.sectors(),
            parent.inner.bpb,
            inode::dir_chain(a.sectors(), parent.inner.bpb, parent.location),
        ),
        ({
            let bpb = parent.inner.bpb;
            let chain = inode::dir_chain(a.sectors(), bpb, parent.location);
            let raw = inode::dir_raw(a.sectors(), bpb, parent.location);
            dir::locate(raw, name, true) matches Some((_, e)) ==> {
                let clusters = clusters_of(a.sectors(), bpb, e);
                &&& laws::apart(clusters, chain)
                &&& forall|i: int|
                    0 <= i < clusters.len() ==> table::in_table(bpb, #[trigger] clusters[i])
                        && table::entry_on_disk(a.sectors(), bpb, clusters[i])
            }
        }),
        table::in_table(parent.inner.bpb, c),
        0 <= table::fat_lba(parent.inner.bpb, 0, c) < a.sectors().len(),
    ensures
        ({
            let bpb = parent.inner.bpb;
            let raw = inode::dir_raw(a.sectors(), bpb, parent.location);
            let left = inode::dir_raw(b.sectors(), bpb, parent.location);
            &&& dir::locate(raw, name, true) matches Some((at, e)) && {
                let clusters = clusters_of(a.sectors(), bpb, e);
                &&& e.name == name
                &&& clusters.contains(c) ==> table::fat_get(b.sectors(), bpb, c) == 0
                &&& !clusters.contains(c) ==> table::fat_get(b.sectors(), bpb, c) == table::fat_get(
                    a.sectors(),
                    bpb,
                    c,
                )
                &&& exists|k: int| #[trigger] lost(raw, left, name, at, e, k)
            }
        }),
{
    let bpb = parent.inner.bpb;
    let disk = a.sectors();
    let chain = inode::dir_chain(disk, bpb, parent.location);
    let raw = dir::held_bytes(disk, bpb, chain);
    lemma_locations(disk, bpb, parent, chain);
    let (at, e) = dir::locate(raw, name, true).unwrap();
    let clusters = clusters_of(disk, bpb, e);
    let freed = table::fat_fill(disk, bpb, clusters, 0);
    laws::lemma_fill_other(disk, bpb, clusters, chain);
    law_fill_frees(disk, bpb, clusters, c);
    assert forall|k: int| 0 <= k < laws::place_count(bpb, chain) implies freed[
        #[trigger] laws::place(bpb, chain, k)] == disk[laws::place(bpb, chain, k)] by {
        laws::lemma_place_behind(disk, bpb, chain, k);
    }
    laws::lemma_held_kept(disk, freed, bpb, chain);
    let list = dir::scan(raw, 0, Seq::empty(), true);
    laws::lemma_scan_positions(raw, 0, Seq::empty(), true);
    crate::laws::fat_directory::law_first_with_name(list, name);
    let k = choose|k: int|
        0 <= k < list.len() && #[trigger] list[k] == (at, e) && e.name == name && forall|j: int|
            0 <= j < k ==> (#[trigger] list[j]).1.name != name;
    assert(list[k] == (at, e));
    let new = raw.update(at, 0xE5);
    assert(laws::sound_dir(freed, bpb, chain));
    laws::lemma_slot_written(freed, bpb, chain, Seq::empty(), new, at);
    assert(b.sectors() == dir::slot_flushed(freed, bpb, chain, new, at));
    laws::law_delete_removes_entry(raw, 0, Seq::empty(), true, k);
    lemma_table_kept(freed, bpb, chain, new, at, c);
    lemma_chain_kept(disk, b.sectors(), bpb, parent, chain);
    assert(lost(raw, new, name, at, e, k));
}

/// Whether entry `k` of a directory, the first with the name, is the one that is missing
/// afterwards.
pub open spec fn lost(
    raw: Seq<u8>,
    left: Seq<u8>,
    name: Seq<char>,
    at: int,
    e: EntryView,
    k: int,
) -> bool {
    let list = dir::scan(raw, 0, Seq::empty(), true);
    &&& 0 <= k < list.len()
    &&& list[k] == (at, e)
    &&& forall|j: int| 0 <= j < k ==> (#[trigger] list[j]).1.name != name
    &&& dir::scan(left, 0, Seq::empty(), true) == list.remove(k)
}

proof fn lemma_locations(disk: Seq<Seq<u8>>, bpb: FatBpb, parent: FatDirInode, chain: Seq<u32>)
    requires
        chain == inode::dir_chain(disk, bpb, parent.location),
        chain.len() > 0,
    ensures
        inode::dir_raw(disk, bpb, parent.location) == dir::held_bytes(disk, bpb, chain),
        data::chain_bytes(disk, bpb, chain) == dir::held_bytes(disk, bpb, chain),
{
}

proof fn lemma_table_kept(
    freed: Seq<Seq<u8>>,
    bpb: FatBpb,
    chain: Seq<u32>,
    new: Seq<u8>,
    at: int,
    c: u32,
)
    requires
        laws::well_laid(freed, bpb),
        laws::sound_dir(freed, bpb, chain),
        chain.len() > 0,
        0 <= at,
        at + 32 <= new.len(),
        new.len() == dir::held_bytes(freed, bpb, chain).len(),
        table::in_table(bpb, c),
    ensures
        table::fat_get(dir::slot_flushed(freed, bpb, chain, new, at), bpb, c) == table::fat_get(
            freed,
            bpb,
            c,
        ),
{
    laws::lemma_held(freed, bpb, chain);
    assert(0 <= at / 512 < laws::place_count(bpb, chain));
    laws::lemma_place_behind(freed, bpb, chain, at / 512);
    laws::lemma_entry_sector(bpb, 0, c);
}

/// The chain of a directory that is still linked is the chain that is read.
proof fn lemma_chain_kept(
    a: Seq<Seq<u8>>,
    b: Seq<Seq<u8>>,
    bpb: FatBpb,
    parent: FatDirInode,
    chain: Seq<u32>,
)
    requires
        chain == inode::dir_chain(a, bpb, parent.location),
        chain.len() > 0,
        laws::sound_dir(b, bpb, chain),
    ensures
        inode::dir_chain(b, bpb, parent.location) == chain,
        inode::dir_raw(b, bpb, parent.location) == dir::held_bytes(b, bpb, chain),
{
    laws::lemma_linked_is_read(b, bpb, chain, table::MAX_CHAIN as nat);
}

/// In the root directory of a FAT16 volume only the entry goes. Every other entry is there as
/// before, and no sector outside the directory has changed.
pub proof fn law_delete_in_root<D: BlockDevice>(
    parent: FatDirInode,
    a: &D,
    b: &D,
    name: Seq<char>,
    before: Seq<u8>,
    after: Seq<u8>,
    lba: int,
)
    requires
        inode::delete_outcome(parent, a, b, name, before, after, Ok::<(), VfsError>(())),
        parent.location is Fat16Root,
        data::full_sectors(a.sectors()),
        parent.inner.bpb.root_dir_sectors > 0,
    ensures
        ({
            let bpb = parent.inner.bpb;
            let start = bpb.base_sector + bpb.root_dir_start_sector;
            let raw = inode::dir_raw(a.sectors(), bpb, parent.location);
            let left = inode::dir_raw(b.sectors(), bpb, parent.location);
            let list = dir::scan(raw, 0, Seq::empty(), false);
            &&& exists|k: int|
                0 <= k < list.len() && (#[trigger] list[k]).1.name == name && dir::scan(
                    left,
                    0,
                    Seq::empty(),
                    false,
                ) == list.remove(k)
            &&& 0 <= lba < a.sectors().len() && !(start <= lba < start + bpb.root_dir_sectors)
                ==> b.sectors()[lba] == a.sectors()[lba]
        }),
{
    let bpb = parent.inner.bpb;
    let disk = a.sectors();
    let start = bpb.base_sector + bpb.root_dir_start_sector;
    let count = bpb.root_dir_sectors as int;
    let raw = data::run_bytes(disk, start, count);
    let list = dir::scan(raw, 0, Seq::empty(), false);
    assert(inode::dir_chain(disk, bpb, parent.location).len() == 0);
    let (at, e) = dir::locate(raw, name, false).unwrap();
    crate::laws::fat_directory::law_first_with_name(list, name);
    laws::lemma_scan_positions(raw, 0, Seq::empty(), false);
    let k = choose|k: int|
        0 <= k < list.len() && #[trigger] list[k] == (at, e) && e.name == name && forall|j: int|
            0 <= j < k ==> (#[trigger] list[j]).1.name != name;
    laws::law_delete_removes_entry(raw, 0, Seq::empty(), false, k);
    let new = raw.update(at, 0xE5);
    let left = data::run_bytes(b.sectors(), start, count);
    assert(new.len() == 512 * count);
    assert forall|i: int| 0 <= i < new.len() implies #[trigger] left[i] == new[i] by {
        crate::laws::fat_volume::law_run_read_after_write(disk, start, count, new, i, lba);
    }
    assert(left =~= new);
    assert(inode::dir_raw(disk, bpb, parent.location) == raw);
    assert(inode::dir_raw(b.sectors(), bpb, parent.location) == new);
    assert(list[k] == (at, e));
    assert(list[k].1.name == name && dir::scan(new, 0, Seq::empty(), false) == list.remove(k));
    if 0 <= lba < disk.len() {
        crate::laws::fat_volume::law_run_read_after_write(disk, start, count, new, 0, lba);
    }
}

/// A cluster that is put behind another one follows it in the table and ends the chain.
#[verifier::rlimit(40)]
pub proof fn law_linked(disk: Seq<Seq<u8>>, bpb: FatBpb, last: u32, fresh: u32, other: u32)
    requires
        bpb.num_fats >= 1,
        data::full_sectors(disk),
        last != fresh,
        2 <= last,
        fresh < bpb.end_mark(),
        table::in_table(bpb, last),
        table::entry_on_disk(disk, bpb, last),
        table::in_table(bpb, fresh),
        table::entry_on_disk(disk, bpb, fresh),
        table::in_table(bpb, other),
        table::entry_on_disk(disk, bpb, other),
    ensures
        ({
            let after = crate::fat32::flush::linked(disk, bpb, last, fresh);
            &&& table::fat_get(after, bpb, last) == fresh
            &&& table::fat_get(after, bpb, fresh) >= bpb.end_mark()
            &&& other != last && other != fresh ==> table::fat_get(after, bpb, other)
                == table::fat_get(disk, bpb, other)
        }),
{
    let mark = bpb.end_mark();
    assert(table::stored(bpb, fresh) == fresh);
    assert(table::stored(bpb, mark) == mark);
    let one = table::fat_set(disk, bpb, fresh, mark);
    lemma_set(disk, bpb, fresh, mark, last);
    lemma_set(disk, bpb, fresh, mark, other);
    let two = table::fat_set(one, bpb, last, fresh);
    lemma_set(one, bpb, last, fresh, fresh);
    lemma_set(one, bpb, last, fresh, other);
    lemma_set(two, bpb, fresh, mark, last);
    lemma_set(two, bpb, fresh, mark, other);
}

#[verifier::rlimit(40)]
proof fn lemma_set(disk: Seq<Seq<u8>>, bpb: FatBpb, c: u32, value: u32, other: u32)
    requires
        bpb.num_fats >= 1,
        table::in_table(bpb, c),
        table::entry_on_disk(disk, bpb, c),
        table::in_table(bpb, other),
        table::entry_on_disk(disk, bpb, other),
    ensures
        ({
            let after = table::fat_set(disk, bpb, c, value);
            &&& table::entry_on_disk(after, bpb, c)
            &&& table::entry_on_disk(after, bpb, other)
            &&& table::fat_get(after, bpb, c) == table::stored(bpb, value)
            &&& other != c ==> table::fat_get(after, bpb, other) == table::fat_get(
                disk,
                bpb,
                other,
            )
        }),
{
    assert(0 <= table::fat_lba(bpb, 0, other) < disk.len());
    table::law_fat_read_after_write(disk, bpb, c, value, other, 0);
}

/// The same holds of the cluster that a full directory gets.
#[verifier::rlimit(40)]
pub proof fn law_directory_extended(
    disk: Seq<Seq<u8>>,
    bpb: FatBpb,
    chain: Seq<u32>,
    fresh: u32,
    other: u32,
)
    requires
        bpb.num_fats >= 1,
        chain.len() > 0,
        chain.last() != fresh,
        fresh < bpb.end_mark(),
        table::in_table(bpb, chain.last()),
        table::entry_on_disk(disk, bpb, chain.last()),
        table::in_table(bpb, fresh),
        table::entry_on_disk(disk, bpb, fresh),
        table::in_table(bpb, other),
        table::entry_on_disk(disk, bpb, other),
    ensures
        ({
            let after = dir::grown_table(disk, bpb, chain, fresh);
            &&& table::fat_get(after, bpb, chain.last()) == fresh
            &&& table::fat_get(after, bpb, fresh) >= bpb.end_mark()
            &&& other != chain.last() && other != fresh ==> table::fat_get(after, bpb, other)
                == table::fat_get(disk, bpb, other)
        }),
{
    let last = chain.last();
    let mark = bpb.end_mark();
    assert(table::stored(bpb, fresh) == fresh);
    assert(table::stored(bpb, mark) == mark);
    let one = table::fat_set(disk, bpb, fresh, mark);
    lemma_set(disk, bpb, fresh, mark, last);
    lemma_set(disk, bpb, fresh, mark, other);
    let two = table::fat_set(one, bpb, last, fresh);
    lemma_set(one, bpb, last, fresh, fresh);
    lemma_set(one, bpb, last, fresh, other);
    lemma_set(two, bpb, fresh, mark, last);
    lemma_set(two, bpb, fresh, mark, other);
}

/// The cluster that a directory gets is zero from end to end; no other sector changes.
pub proof fn law_new_cluster_zeroed(
    disk: Seq<Seq<u8>>,
    bpb: FatBpb,
    c: u32,
    k: int,
    j: int,
    lba: int,
)
    requires
        0 <= k < bpb.sectors_per_cluster,
        0 <= j < 512,
        0 <= bpb.cluster_lba(c),
        bpb.cluster_lba(c) + bpb.sectors_per_cluster <= disk.len(),
        0 <= lba < disk.len(),
    ensures
        dir::zeroed_cluster(disk, bpb, c)[bpb.cluster_lba(c) + k][j] == 0,
        !(bpb.cluster_lba(c) <= lba < bpb.cluster_lba(c) + bpb.sectors_per_cluster)
            ==> dir::zeroed_cluster(disk, bpb, c)[lba] == disk[lba],
{
}

/// The cluster that a full directory gets is the first free one behind its last, going around
/// to 2 at the top.
pub proof fn law_directory_takes_next(disk: Seq<Seq<u8>>, bpb: FatBpb, last: u32, k: u32)
    requires
        2 <= last < bpb.top_cluster(),
    ensures
        match crate::fat32::flush::next_free(disk, bpb, dir::dir_hint(last)) {
            Some(c) => {
                &&& table::fat_get(disk, bpb, c) == 0
                &&& table::fat_get(disk, bpb, k) == 0 && last < k <= bpb.top_cluster() ==> last < c
                    <= k
                &&& table::fat_get(disk, bpb, k) == 0 && 2 <= k <= last ==> c > last || c <= k
            },
            None => 2 <= k <= bpb.top_cluster() ==> table::fat_get(disk, bpb, k) != 0,
        },
{
    crate::laws::fat_volume::law_growth_takes_next(disk, bpb, last, k);
}

} // verus!
