//! What the operations on a volume promise together.
use vstd::prelude::*;

use crate::block::BlockDevice;
use crate::bytes;
use crate::fat32::bpb;
use crate::fat32::bpb::{FatBpb, FatVariant};
use crate::fat32::data;
use crate::fat32::dir;
use crate::fat32::entry;
use crate::fat32::entry::EntryView;
use crate::fat32::file::FatFileHandle;
use crate::fat32::flush;
use crate::fat32::flush::ContentsEnd;
use crate::fat32::inode;
use crate::fat32::inode::{DirLocation, FatDirInode, FatFileInode, FatInner, FatInode};
use crate::fat32::table;
use crate::vfs::{Errnos, VfsError};

verus! {

/// The first sector behind all the copies of the table.
pub open spec fn table_end(bpb: FatBpb) -> int {
    bpb.base_sector + bpb.reserved_sectors + bpb.num_fats * bpb.fat_size_sectors
}

/// Whether a volume lies on sectors of 512 bytes, with its data behind its table.
pub open spec fn well_laid(disk: Seq<Seq<u8>>, bpb: FatBpb) -> bool {
    &&& bpb.wf()
    &&& bpb.num_fats >= 1
    &&& data::full_sectors(disk)
    &&& bpb.base_sector + bpb.data_start_sector >= table_end(bpb)
}

/// Whether the entry of a cluster lies inside its copy of the table, and on the disk.
pub open spec fn entry_there(disk: Seq<Seq<u8>>, bpb: FatBpb, c: u32) -> bool {
    table::in_table(bpb, c) && 0 <= table::fat_lba(bpb, 0, c) < disk.len()
}

/// Whether a table entry ends a chain. An entry of 0 is that of a free cluster.
pub open spec fn ends(bpb: FatBpb, value: u32) -> bool {
    value == 1 || value >= bpb.end_mark()
}

/// Whether each cluster of a chain links to the next and the last one ends it.
pub open spec fn linked_chain(disk: Seq<Seq<u8>>, bpb: FatBpb, chain: Seq<u32>) -> bool {
    &&& 0 < chain.len() <= table::MAX_CHAIN
    &&& chain.no_duplicates()
    &&& forall|i: int|
        0 <= i < chain.len() ==> 2 <= #[trigger] chain[i] < bpb.end_mark() && entry_there(
            disk,
            bpb,
            chain[i],
        )
    &&& forall|i: int|
        0 <= i < chain.len() - 1 ==> table::fat_get(disk, bpb, #[trigger] chain[i]) == chain[i + 1]
    &&& ends(bpb, table::fat_get(disk, bpb, chain.last()))
}

/// Whether a chain is empty or linked.
pub open spec fn sound_chain(disk: Seq<Seq<u8>>, bpb: FatBpb, chain: Seq<u32>) -> bool {
    chain.len() == 0 || linked_chain(disk, bpb, chain)
}

/// Whether two chains have no common cluster.
pub open spec fn apart(a: Seq<u32>, b: Seq<u32>) -> bool {
    forall|x: int, y: int|
        0 <= x < a.len() && 0 <= y < b.len() ==> #[trigger] a[x] != #[trigger] b[y]
}

/// Whether two disks differ at most behind the table.
pub open spec fn same_table(a: Seq<Seq<u8>>, b: Seq<Seq<u8>>, bpb: FatBpb) -> bool {
    &&& a.len() == b.len()
    &&& forall|i: int| 0 <= i < table_end(bpb) && i < a.len() ==> #[trigger] a[i] == b[i]
}

/// Whether two disks differ at most in the table.
pub open spec fn same_behind(a: Seq<Seq<u8>>, b: Seq<Seq<u8>>, bpb: FatBpb) -> bool {
    &&& a.len() == b.len()
    &&& forall|i: int| table_end(bpb) <= i < a.len() ==> #[trigger] a[i] == b[i]
}

pub proof fn lemma_entry_sector(bpb: FatBpb, copy: int, c: u32)
    requires
        table::in_table(bpb, c),
        0 <= copy < bpb.num_fats,
    ensures
        0 <= table::fat_lba(bpb, copy, c) < table_end(bpb),
{
    assert(0 <= copy * bpb.fat_size_sectors && copy * bpb.fat_size_sectors + bpb.fat_size_sectors
        <= bpb.num_fats * bpb.fat_size_sectors) by (nonlinear_arith)
        requires
            0 <= copy,
            copy + 1 <= bpb.num_fats,
            0 <= bpb.fat_size_sectors,
    ;
}

/// The sectors of data clusters lie behind the table.
proof fn lemma_data_behind(disk: Seq<Seq<u8>>, bpb: FatBpb, chain: Seq<u32>, k: int)
    requires
        well_laid(disk, bpb),
        0 <= k < data::sectors_in(bpb, chain),
        forall|i: int| 0 <= i < chain.len() ==> 2 <= #[trigger] chain[i],
    ensures
        data::chain_lba(bpb, chain, k) >= table_end(bpb),
{
    let spc = bpb.sectors_per_cluster as int;
    data::lemma_index_bound(k, spc, chain.len() as int);
    let c = chain[k / spc];
    assert(0 <= (c - 2) * spc) by (nonlinear_arith)
        requires
            c >= 2,
            spc > 0,
    ;
}

/// A chain that is linked is the chain that is read.
pub proof fn lemma_linked_is_read(disk: Seq<Seq<u8>>, bpb: FatBpb, chain: Seq<u32>, limit: nat)
    requires
        linked_chain(disk, bpb, chain),
        chain.len() <= limit,
    ensures
        table::chain_of(disk, bpb, chain[0], limit) == chain,
    decreases chain.len(),
{
    let rest = chain.skip(1);
    if chain.len() == 1 {
        assert(table::chain_of(
            disk,
            bpb,
            table::fat_get(disk, bpb, chain[0]),
            (limit - 1) as nat,
        ) =~= Seq::empty());
        assert(table::chain_of(disk, bpb, chain[0], limit) =~= chain);
    } else {
        assert(rest.last() == chain.last());
        assert(linked_chain(disk, bpb, rest)) by {
            assert forall|i: int| 0 <= i < rest.len() - 1 implies table::fat_get(
                disk,
                bpb,
                #[trigger] rest[i],
            ) == rest[i + 1] by {
                assert(rest[i] == chain[i + 1]);
            }
            assert forall|i: int| 0 <= i < rest.len() implies 2 <= #[trigger] rest[i]
                < bpb.end_mark() && entry_there(disk, bpb, rest[i]) by {
                assert(rest[i] == chain[i + 1]);
            }
        }
        lemma_linked_is_read(disk, bpb, rest, (limit - 1) as nat);
        assert(table::fat_get(disk, bpb, chain[0]) == rest[0]);
        assert(seq![chain[0]] + rest =~= chain);
    }
}

/// Links survive whatever leaves the table alone.
proof fn lemma_links_kept(a: Seq<Seq<u8>>, b: Seq<Seq<u8>>, bpb: FatBpb, chain: Seq<u32>)
    requires
        sound_chain(a, bpb, chain),
        same_table(a, b, bpb),
        bpb.num_fats >= 1,
    ensures
        sound_chain(b, bpb, chain),
{
    assert forall|i: int| 0 <= i < chain.len() implies table::fat_get(b, bpb, #[trigger] chain[i])
        == table::fat_get(a, bpb, chain[i]) by {
        lemma_entry_sector(bpb, 0, chain[i]);
    }
    if chain.len() > 0 {
        assert(chain.last() == chain[chain.len() - 1]);
    }
}

/// Setting a table entry leaves everything behind the table alone.
pub proof fn lemma_set_behind(disk: Seq<Seq<u8>>, bpb: FatBpb, c: u32, value: u32)
    requires
        data::full_sectors(disk),
        table::entry_on_disk(disk, bpb, c),
        table::in_table(bpb, c),
    ensures
        data::full_sectors(table::fat_set(disk, bpb, c, value)),
        same_behind(disk, table::fat_set(disk, bpb, c, value), bpb),
{
    table::lemma_set_copies(disk, bpb, c, value, bpb.num_fats as nat);
    let d = table::fat_set(disk, bpb, c, value);
    assert forall|i: int| table_end(bpb) <= i < disk.len() implies #[trigger] disk[i] == d[i] by {
        assert forall|k: int| 0 <= k < bpb.num_fats implies i != #[trigger] table::fat_lba(
            bpb,
            k,
            c,
        ) by {
            lemma_entry_sector(bpb, k, c);
        }
    }
}

/// The entry of a cluster of a linked chain is not that of a free cluster.
proof fn lemma_not_free(disk: Seq<Seq<u8>>, bpb: FatBpb, chain: Seq<u32>, fresh: u32)
    requires
        sound_chain(disk, bpb, chain),
        table::fat_get(disk, bpb, fresh) == 0,
    ensures
        !chain.contains(fresh),
{
    assert forall|i: int| 0 <= i < chain.len() implies #[trigger] chain[i] != fresh by {
        if i < chain.len() - 1 {
            assert(chain[i + 1] >= 2);
        } else {
            assert(chain.last() == chain[i]);
        }
    }
}

/// Setting the entry of another cluster leaves a chain as it is.
proof fn lemma_set_other(disk: Seq<Seq<u8>>, bpb: FatBpb, c: u32, value: u32, chain: Seq<u32>)
    requires
        bpb.num_fats >= 1,
        table::entry_on_disk(disk, bpb, c),
        table::in_table(bpb, c),
        sound_chain(disk, bpb, chain),
        !chain.contains(c),
    ensures
        sound_chain(table::fat_set(disk, bpb, c, value), bpb, chain),
{
    let d = table::fat_set(disk, bpb, c, value);
    assert forall|i: int| 0 <= i < chain.len() implies table::fat_get(d, bpb, #[trigger] chain[i])
        == table::fat_get(disk, bpb, chain[i]) && d.len() == disk.len() by {
        assert(chain.contains(chain[i]));
        table::law_fat_read_after_write(disk, bpb, c, value, chain[i], 0);
    }
    if chain.len() > 0 {
        assert(chain.last() == chain[chain.len() - 1]);
    }
}

/// Linking a free cluster behind the last one of a chain extends the chain by it, and
/// leaves other chains as they are.
#[verifier::spinoff_prover]
#[verifier::rlimit(60)]
proof fn lemma_link_extends(
    disk: Seq<Seq<u8>>,
    bpb: FatBpb,
    chain: Seq<u32>,
    other: Seq<u32>,
    fresh: u32,
)
    requires
        bpb.num_fats >= 1,
        data::full_sectors(disk),
        sound_chain(disk, bpb, chain),
        sound_chain(disk, bpb, other),
        apart(chain, other),
        chain.len() < table::MAX_CHAIN,
        table::in_table(bpb, fresh),
        table::entry_on_disk(disk, bpb, fresh),
        chain.len() > 0 ==> table::entry_on_disk(disk, bpb, chain.last()),
        2 <= fresh < bpb.end_mark(),
        table::fat_get(disk, bpb, fresh) == 0,
    ensures
        ({
            let d = flush::linked(disk, bpb, flush::last_of(chain), fresh);
            &&& data::full_sectors(d)
            &&& same_behind(disk, d, bpb)
            &&& linked_chain(d, bpb, chain.push(fresh))
            &&& sound_chain(d, bpb, other)
            &&& apart(chain.push(fresh), other)
        }),
{
    let mark = bpb.end_mark();
    let last = flush::last_of(chain);
    lemma_not_free(disk, bpb, chain, fresh);
    lemma_not_free(disk, bpb, other, fresh);
    let longer = chain.push(fresh);
    assert(apart(longer, other)) by {
        assert forall|x: int, y: int| 0 <= x < longer.len() && 0 <= y < other.len()
            implies #[trigger] longer[x] != #[trigger] other[y] by {
            assert(other.contains(other[y]));
            if x < chain.len() {
                assert(longer[x] == chain[x]);
            }
        }
    }
    assert forall|i: int| 0 <= i < chain.len() implies #[trigger] chain[i] != fresh by {
        assert(chain.contains(chain[i]));
    }
    assert(0 <= table::fat_lba(bpb, 0, fresh) < disk.len());
    let d1 = table::fat_set(disk, bpb, fresh, mark);
    lemma_set_behind(disk, bpb, fresh, mark);
    lemma_set_other(disk, bpb, fresh, mark, other);
    if chain.len() == 0 {
        let d3 = table::fat_set(d1, bpb, fresh, mark);
        lemma_set_behind(d1, bpb, fresh, mark);
        lemma_set_other(d1, bpb, fresh, mark, other);
        table::law_fat_read_after_write(d1, bpb, fresh, mark, fresh, 0);
        assert(d3 == flush::linked(disk, bpb, last, fresh));
        assert(longer =~= seq![fresh]);
        assert(linked_chain(d3, bpb, longer));
    } else {
        assert(last == chain[chain.len() - 1]);
        let d2 = table::fat_set(d1, bpb, last, fresh);
        let d3 = table::fat_set(d2, bpb, fresh, mark);
        lemma_set_behind(d1, bpb, last, fresh);
        lemma_set_behind(d2, bpb, fresh, mark);
        assert(d3 == flush::linked(disk, bpb, last, fresh));
        assert(!other.contains(last));
        lemma_set_other(d1, bpb, last, fresh, other);
        lemma_set_other(d2, bpb, fresh, mark, other);
        table::law_fat_read_after_write(d2, bpb, fresh, mark, last, 0);
        table::law_fat_read_after_write(d1, bpb, last, fresh, last, 0);
        assert forall|i: int| 0 <= i < chain.len() - 1 implies table::fat_get(
            d3,
            bpb,
            #[trigger] chain[i],
        ) == chain[i + 1] by {
            let c = chain[i];
            assert(c != last);
            table::law_fat_read_after_write(disk, bpb, fresh, mark, c, 0);
            table::law_fat_read_after_write(d1, bpb, last, fresh, c, 0);
            table::law_fat_read_after_write(d2, bpb, fresh, mark, c, 0);
        }
        assert(table::fat_get(d3, bpb, last) == fresh);
        assert(table::fat_get(d3, bpb, fresh) == mark);
        assert forall|i: int| 0 <= i < longer.len() - 1 implies table::fat_get(
            d3,
            bpb,
            #[trigger] longer[i],
        ) == longer[i + 1] by {
            assert(longer[i] == chain[i]);
        }
        assert(longer.no_duplicates());
    }
}

/// What a chain grows to starts with the chain.
proof fn lemma_grow_prefix(disk: Seq<Seq<u8>>, bpb: FatBpb, chain: Seq<u32>, last: u32, needed: int)
    ensures
        flush::grow(disk, bpb, chain, last, needed) matches Some((_, clusters)) ==> {
            &&& clusters.len() >= chain.len()
            &&& clusters.len() >= needed
            &&& forall|i: int| 0 <= i < chain.len() ==> clusters[i] == #[trigger] chain[i]
        },
    decreases needed - chain.len(),
{
    if chain.len() < needed {
        match flush::next_free(disk, bpb, flush::hint_after(last)) {
            Some(c) => {
                lemma_grow_prefix(
                    flush::linked(disk, bpb, last, c),
                    bpb,
                    chain.push(c),
                    c,
                    needed,
                );
                if let Some((_, clusters)) = flush::grow(disk, bpb, chain, last, needed) {
                    assert forall|i: int| 0 <= i < chain.len() implies clusters[i]
                        == #[trigger] chain[i] by {
                        assert(chain.push(c)[i] == chain[i]);
                    }
                }
            },
            None => {},
        }
    }
}

/// The entry of a cluster that can be written is on the disk.
proof fn lemma_writable_there<D: BlockDevice>(
    device: &D,
    disk: Seq<Seq<u8>>,
    bpb: FatBpb,
    c: u32,
)
    requires
        table::entry_writable(device, bpb, c),
        device.sectors().len() == disk.len(),
        data::full_sectors(disk),
    ensures
        table::entry_on_disk(disk, bpb, c),
{
}

/// A chain that grows stays linked, and leaves other chains as they are.
proof fn lemma_grow_linked<D: BlockDevice>(
    device: &D,
    disk: Seq<Seq<u8>>,
    bpb: FatBpb,
    chain: Seq<u32>,
    other: Seq<u32>,
    needed: int,
)
    requires
        device.sectors().len() == disk.len(),
        bpb.num_fats >= 1,
        data::full_sectors(disk),
        sound_chain(disk, bpb, chain),
        sound_chain(disk, bpb, other),
        apart(chain, other),
        needed <= table::MAX_CHAIN,
        !flush::grow_stuck(device, disk, bpb, chain, flush::last_of(chain), needed),
        !flush::grow_cut(device, disk, bpb, chain, flush::last_of(chain), needed),
        flush::grow(disk, bpb, chain, flush::last_of(chain), needed) matches Some((_, clusters))
            && forall|i: int|
            0 <= i < clusters.len() ==> table::in_table(bpb, #[trigger] clusters[i]),
    ensures
        flush::grow(disk, bpb, chain, flush::last_of(chain), needed) matches Some(
            (after, clusters),
        ) && {
            &&& data::full_sectors(after)
            &&& same_behind(disk, after, bpb)
            &&& sound_chain(after, bpb, clusters)
            &&& sound_chain(after, bpb, other)
            &&& apart(clusters, other)
        },
    decreases needed - chain.len(),
{
    if chain.len() < needed {
        let last = flush::last_of(chain);
        let hint = flush::hint_after(last);
        let c = flush::next_free(disk, bpb, hint).unwrap();
        let d = flush::linked(disk, bpb, last, c);
        assert(table::search_reaches(disk, bpb, hint, c) && table::fat_get(disk, bpb, c) == 0);
        lemma_grow_prefix(d, bpb, chain.push(c), c, needed);
        let clusters = flush::grow(disk, bpb, chain, last, needed).unwrap().1;
        assert(clusters[chain.len() as int] == chain.push(c)[chain.len() as int]);
        assert(2 <= c < bpb.end_mark());
        assert(table::entry_writable(device, bpb, c));
        lemma_writable_there(device, disk, bpb, c);
        if chain.len() > 0 {
            assert(chain.last() == chain[chain.len() - 1]);
            lemma_writable_there(device, disk, bpb, chain.last());
        }
        lemma_link_extends(disk, bpb, chain, other, c);
        assert(flush::last_of(chain.push(c)) == c);
        lemma_grow_linked(device, d, bpb, chain.push(c), other, needed);
    }
}

/// Whether entries stand at whole slots from `at` on.
pub open spec fn placed(list: Seq<(int, EntryView)>, len: int, at: int) -> bool {
    forall|i: int|
        0 <= i < list.len() ==> at <= (#[trigger] list[i]).0 && list[i].0 + 32 <= len && (list[i].0
            - at) % 32 == 0
}

/// A scan finds entries at whole slots behind its start.
pub proof fn lemma_scan_positions(raw: Seq<u8>, at: int, pending: Seq<(u8, Seq<char>)>, long: bool)
    requires
        at >= 0,
    ensures
        placed(dir::scan(raw, at, pending, long), raw.len() as int, at),
    decreases raw.len() - at,
{
    if !(at + 32 > raw.len() || raw[at] == 0) {
        let slot = raw.subrange(at, at + 32);
        let now = dir::scan(raw, at, pending, long);
        let next = dir::after_slot(slot, pending, long);
        let rest = dir::scan(raw, at + 32, next, long);
        lemma_scan_positions(raw, at + 32, next, long);
        assert forall|i: int| 0 <= i < rest.len() implies at <= (#[trigger] rest[i]).0 && rest[i].0
            + 32 <= raw.len() && (rest[i].0 - at) % 32 == 0 by {
            assert((rest[i].0 - at) % 32 == (rest[i].0 - (at + 32)) % 32);
        }
        if !dir::is_long(slot) && entry::entry_of(slot) is Some {
            assert forall|i: int| 0 <= i < now.len() implies at <= (#[trigger] now[i]).0 && now[i].0
                + 32 <= raw.len() && (now[i].0 - at) % 32 == 0 by {
                if i > 0 {
                    assert(now[i] == rest[i - 1]);
                }
            }
        } else {
            assert(now == rest);
        }
    }
}

pub proof fn lemma_first_named_member(list: Seq<(int, EntryView)>, name: Seq<char>)
    ensures
        dir::first_named(list, name) matches Some(item) ==> exists|i: int|
            0 <= i < list.len() && #[trigger] list[i] == item,
    decreases list.len(),
{
    if list.len() > 0 && list[0].1.name != name {
        lemma_first_named_member(list.skip(1), name);
        if let Some(item) = dir::first_named(list.skip(1), name) {
            let i = choose|i: int|
                0 <= i < list.skip(1).len() && #[trigger] list.skip(1)[i] == item;
            assert(list[i + 1] == item);
        }
    }
}

/// The sectors of a directory with the given chain; without one it is the FAT16 root.
pub open spec fn place_count(bpb: FatBpb, chain: Seq<u32>) -> int {
    if chain.len() == 0 {
        bpb.root_dir_sectors as int
    } else {
        data::sectors_in(bpb, chain)
    }
}

/// The LBA of the `k`-th of these sectors.
pub open spec fn place(bpb: FatBpb, chain: Seq<u32>, k: int) -> int {
    if chain.len() == 0 {
        dir::root_start(bpb) + k
    } else {
        data::chain_lba(bpb, chain, k)
    }
}

/// Whether a directory lies behind the table of its volume: the FAT16 root in front of the
/// data, any other one in the clusters of a linked chain. All its sectors are on the disk.
pub open spec fn sound_dir(disk: Seq<Seq<u8>>, bpb: FatBpb, chain: Seq<u32>) -> bool {
    if chain.len() == 0 {
        &&& root_in_front(bpb)
        &&& bpb.root_dir_sectors > 0 ==> dir::root_start(bpb) + bpb.root_dir_sectors <= disk.len()
    } else {
        &&& linked_chain(disk, bpb, chain)
        &&& data::chain_on_disk(disk, bpb, chain)
    }
}

/// Whether the root directory of a FAT16 volume lies between its table and its data.
pub open spec fn root_in_front(bpb: FatBpb) -> bool {
    &&& table_end(bpb) <= dir::root_start(bpb)
    &&& dir::root_start(bpb) + bpb.root_dir_sectors <= bpb.base_sector + bpb.data_start_sector
}

pub proof fn lemma_place_behind(disk: Seq<Seq<u8>>, bpb: FatBpb, chain: Seq<u32>, k: int)
    requires
        well_laid(disk, bpb),
        sound_dir(disk, bpb, chain),
        0 <= k < place_count(bpb, chain),
    ensures
        table_end(bpb) <= place(bpb, chain, k) < disk.len(),
{
    if chain.len() > 0 {
        lemma_data_behind(disk, bpb, chain, k);
        assert(0 <= data::chain_lba(bpb, chain, k) < disk.len());
    }
}

/// Chains without a common cluster have no common sector.
proof fn lemma_chains_apart(bpb: FatBpb, a: Seq<u32>, b: Seq<u32>, j: int, k: int)
    requires
        bpb.wf(),
        forall|i: int| 0 <= i < a.len() ==> 2 <= #[trigger] a[i],
        forall|i: int| 0 <= i < b.len() ==> 2 <= #[trigger] b[i],
        apart(a, b),
        0 <= j < data::sectors_in(bpb, a),
        0 <= k < data::sectors_in(bpb, b),
    ensures
        data::chain_lba(bpb, a, j) != data::chain_lba(bpb, b, k),
{
    let spc = bpb.sectors_per_cluster as int;
    data::lemma_index_bound(j, spc, a.len() as int);
    data::lemma_index_bound(k, spc, b.len() as int);
    let (c, s) = (a[j / spc], j % spc);
    let (d, t) = (b[k / spc], k % spc);
    if data::chain_lba(bpb, a, j) == data::chain_lba(bpb, b, k) {
        let x = (c - 2) * spc + s;
        vstd::arithmetic::div_mod::lemma_fundamental_div_mod_converse(x, spc, c - 2, s);
        vstd::arithmetic::div_mod::lemma_fundamental_div_mod_converse(x, spc, d - 2, t);
        assert(c == d);
    }
}


/// A directory shares no sector with a chain that has no cluster of it.
proof fn lemma_place_apart(
    disk: Seq<Seq<u8>>,
    bpb: FatBpb,
    chain: Seq<u32>,
    other: Seq<u32>,
    k: int,
    j: int,
)
    requires
        bpb.wf(),
        sound_dir(disk, bpb, chain),
        forall|i: int| 0 <= i < other.len() ==> 2 <= #[trigger] other[i],
        apart(other, chain),
        0 <= k < place_count(bpb, chain),
        0 <= j < data::sectors_in(bpb, other),
    ensures
        place(bpb, chain, k) != data::chain_lba(bpb, other, j),
{
    if chain.len() > 0 {
        lemma_chains_apart(bpb, other, chain, j, k);
    } else {
        let spc = bpb.sectors_per_cluster as int;
        data::lemma_index_bound(j, spc, other.len() as int);
        let c = other[j / spc];
        assert(0 <= (c - 2) * spc) by (nonlinear_arith)
            requires
                c >= 2,
                spc > 0,
        ;
    }
}

proof fn lemma_places_distinct(disk: Seq<Seq<u8>>, bpb: FatBpb, chain: Seq<u32>, j: int, k: int)
    requires
        bpb.wf(),
        sound_dir(disk, bpb, chain),
        0 <= j < place_count(bpb, chain),
        0 <= k < place_count(bpb, chain),
        j != k,
    ensures
        place(bpb, chain, j) != place(bpb, chain, k),
{
    if chain.len() > 0 {
        data::lemma_sectors_distinct(bpb, chain);
        if j < k {
            assert(data::chain_lba(bpb, chain, j) != data::chain_lba(bpb, chain, k));
        } else {
            assert(data::chain_lba(bpb, chain, k) != data::chain_lba(bpb, chain, j));
        }
    }
}

/// The bytes of a directory, sector by sector.
pub proof fn lemma_held(disk: Seq<Seq<u8>>, bpb: FatBpb, chain: Seq<u32>)
    requires
        bpb.wf(),
    ensures
        dir::held_bytes(disk, bpb, chain).len() == place_count(bpb, chain) * 512,
        place_count(bpb, chain) >= 0,
        forall|i: int|
            0 <= i < place_count(bpb, chain) * 512 ==> #[trigger] dir::held_bytes(
                disk,
                bpb,
                chain,
            )[i] == disk[place(bpb, chain, i / 512)][i % 512],
{
    if chain.len() > 0 {
        assert(data::sectors_in(bpb, chain) >= 0) by (nonlinear_arith)
            requires
                data::sectors_in(bpb, chain) == chain.len() * bpb.sectors_per_cluster,
                bpb.sectors_per_cluster >= 0,
        ;
    }
}

/// A directory reads the same where its sectors are the same.
pub proof fn lemma_held_kept(a: Seq<Seq<u8>>, b: Seq<Seq<u8>>, bpb: FatBpb, chain: Seq<u32>)
    requires
        bpb.wf(),
        forall|k: int|
            0 <= k < place_count(bpb, chain) ==> b[#[trigger] place(bpb, chain, k)] == a[place(
                bpb,
                chain,
                k,
            )],
    ensures
        dir::held_bytes(b, bpb, chain) == dir::held_bytes(a, bpb, chain),
{
    lemma_held(a, bpb, chain);
    lemma_held(b, bpb, chain);
    let x = dir::held_bytes(a, bpb, chain);
    let y = dir::held_bytes(b, bpb, chain);
    assert forall|i: int| 0 <= i < x.len() implies x[i] == y[i] by {
        assert(0 <= i / 512 < place_count(bpb, chain));
    }
    assert(x =~= y);
}

/// A change behind the table, on sectors of 512 bytes, leaves a volume and its chains sound.
proof fn lemma_still_sound(
    a: Seq<Seq<u8>>,
    b: Seq<Seq<u8>>,
    bpb: FatBpb,
    chain: Seq<u32>,
)
    requires
        well_laid(a, bpb),
        sound_dir(a, bpb, chain),
        same_table(a, b, bpb),
        data::full_sectors(b),
    ensures
        well_laid(b, bpb),
        sound_dir(b, bpb, chain),
{
    if chain.len() > 0 {
        lemma_links_kept(a, b, bpb, chain);
    }
}

/// Freeing the clusters of one chain leaves other chains as they are.
pub proof fn lemma_fill_other(
    disk: Seq<Seq<u8>>,
    bpb: FatBpb,
    chain: Seq<u32>,
    other: Seq<u32>,
)
    requires
        bpb.num_fats >= 1,
        data::full_sectors(disk),
        forall|i: int|
            0 <= i < chain.len() ==> table::in_table(bpb, #[trigger] chain[i])
                && table::entry_on_disk(disk, bpb, chain[i]),
        sound_chain(disk, bpb, other),
        apart(chain, other),
    ensures
        data::full_sectors(table::fat_fill(disk, bpb, chain, 0)),
        same_behind(disk, table::fat_fill(disk, bpb, chain, 0), bpb),
        sound_chain(table::fat_fill(disk, bpb, chain, 0), bpb, other),
    decreases chain.len(),
{
    if chain.len() > 0 {
        let front = chain.drop_last();
        let last = chain.last();
        assert(last == chain[chain.len() - 1]);
        assert forall|i: int| 0 <= i < front.len() implies front[i] == #[trigger] chain[i] by {}
        assert(apart(front, other)) by {
            assert forall|x: int, y: int| 0 <= x < front.len() && 0 <= y < other.len()
                implies #[trigger] front[x] != #[trigger] other[y] by {
                assert(front[x] == chain[x]);
            }
        }
        assert forall|i: int| 0 <= i < front.len() implies table::in_table(
            bpb,
            #[trigger] front[i],
        ) && table::entry_on_disk(disk, bpb, front[i]) by {
            assert(front[i] == chain[i]);
        }
        lemma_fill_other(disk, bpb, front, other);
        let before = table::fat_fill(disk, bpb, front, 0);
        assert(!other.contains(last));
        lemma_set_other(before, bpb, last, 0, other);
        lemma_set_behind(before, bpb, last, 0);
    }
}

/// The clusters that a file has once its contents are written.
pub open spec fn file_clusters(
    disk: Seq<Seq<u8>>,
    bpb: FatBpb,
    first_cluster: u32,
    contents: Seq<u8>,
) -> Seq<u32> {
    if contents.len() > 0 {
        match flush::grown_file(disk, bpb, first_cluster, true, contents) {
            Some((_, clusters)) => clusters,
            None => Seq::empty(),
        }
    } else {
        Seq::empty()
    }
}

/// Whether the volume has room for the contents of a file: enough free clusters, each with
/// its entry inside the table.
pub open spec fn has_room(
    disk: Seq<Seq<u8>>,
    bpb: FatBpb,
    first_cluster: u32,
    contents: Seq<u8>,
) -> bool {
    &&& contents.len() <= u32::MAX
    &&& contents.len() > 0 ==> {
        &&& flush::clusters_for(bpb, contents.len() as int) <= table::MAX_CHAIN
        &&& flush::grown_file(disk, bpb, first_cluster, true, contents) matches Some((_, clusters))
            && forall|i: int|
            0 <= i < clusters.len() ==> table::in_table(bpb, #[trigger] clusters[i])
    }
}

/// Whether the chain of a file or a directory can be relied on: no cluster occurs twice,
/// their entries lie inside the table, and the chain ends in a mark, not in a free cluster.
pub open spec fn tidy(disk: Seq<Seq<u8>>, bpb: FatBpb, start: u32) -> bool {
    let chain = table::cluster_chain(disk, bpb, start);
    &&& chain.no_duplicates()
    &&& forall|i: int| 0 <= i < chain.len() ==> table::in_table(bpb, #[trigger] chain[i])
    &&& chain.len() > 0 ==> ends(bpb, table::fat_get(disk, bpb, chain.last()))
}

/// A tidy chain that can be read is linked.
proof fn lemma_tidy<D: BlockDevice>(device: &D, bpb: FatBpb, start: u32)
    requires
        tidy(device.sectors(), bpb, start),
        table::chain_readable(
            device,
            bpb,
            table::cluster_chain(device.sectors(), bpb, start),
        ),
    ensures
        sound_chain(
            device.sectors(),
            bpb,
            table::cluster_chain(device.sectors(), bpb, start),
        ),
{
    let disk = device.sectors();
    let chain = table::cluster_chain(disk, bpb, start);
    let limit = table::MAX_CHAIN as nat;
    table::lemma_chain_members(disk, bpb, start, limit);
    assert forall|i: int| 0 <= i < chain.len() implies entry_there(
        disk,
        bpb,
        #[trigger] chain[i],
    ) by {
        assert(table::entry_readable(device, bpb, chain[i]));
    }
    assert forall|i: int| 0 <= i < chain.len() - 1 implies table::fat_get(
        disk,
        bpb,
        #[trigger] chain[i],
    ) == chain[i + 1] by {
        table::lemma_chain_links(disk, bpb, start, limit, i);
    }
}

proof fn lemma_enough_room(bpb: FatBpb, chain: Seq<u32>, size: int)
    requires
        bpb.wf(),
        0 < size,
        chain.len() >= flush::clusters_for(bpb, size),
    ensures
        data::sectors_in(bpb, chain) * 512 >= size,
        flush::clusters_for(bpb, size) > 0,
{
    let bpc = flush::cluster_len(bpb);
    let q = flush::clusters_for(bpb, size);
    vstd::arithmetic::div_mod::lemma_fundamental_div_mod(size + bpc - 1, bpc);
    assert(bpc * q >= size);
    assert(q > 0) by (nonlinear_arith)
        requires
            bpc * q >= size,
            size > 0,
            bpc > 0,
    ;
    assert(chain.len() * bpb.sectors_per_cluster * 512 >= bpc * q) by (nonlinear_arith)
        requires
            chain.len() >= q,
            q > 0,
            0 < bpc <= 512 * bpb.sectors_per_cluster,
            0 < bpb.sectors_per_cluster,
    ;
}

/// Whether the clusters of a file hold its contents.
pub open spec fn holds(disk: Seq<Seq<u8>>, bpb: FatBpb, clusters: Seq<u32>, contents: Seq<u8>) -> bool {
    &&& data::sectors_in(bpb, clusters) * 512 >= contents.len()
    &&& forall|k: int|
        0 <= k < data::sectors_for(contents.len() as int) ==> 0 <= #[trigger] data::chain_lba(
            bpb,
            clusters,
            k,
        ) < disk.len()
    &&& forall|i: int|
        0 <= i < contents.len() ==> #[trigger] data::chain_bytes(disk, bpb, clusters)[i]
            == contents[i]
}

/// Once the contents of a file are written they stand in its clusters, and its directory
/// is as it was.
#[verifier::spinoff_prover]
#[verifier::rlimit(60)]
proof fn lemma_contents<D: BlockDevice>(
    device: &D,
    bpb: FatBpb,
    first_cluster: u32,
    contents: Seq<u8>,
    dir_chain: Seq<u32>,
)
    requires
        well_laid(device.sectors(), bpb),
        sound_dir(device.sectors(), bpb, dir_chain),
        sound_chain(
            device.sectors(),
            bpb,
            table::cluster_chain(device.sectors(), bpb, first_cluster),
        ),
        apart(table::cluster_chain(device.sectors(), bpb, first_cluster), dir_chain),
        has_room(device.sectors(), bpb, first_cluster, contents),
        !flush::contents_blocked(device, bpb, first_cluster, contents),
    ensures
        flush::contents_flushed(device.sectors(), bpb, first_cluster, true, contents) matches Some(
            (after, first),
        ) && {
            let disk = device.sectors();
            let clusters = file_clusters(disk, bpb, first_cluster, contents);
            &&& after.len() == disk.len()
            &&& well_laid(after, bpb)
            &&& sound_dir(after, bpb, dir_chain)
            &&& dir::held_bytes(after, bpb, dir_chain) == dir::held_bytes(disk, bpb, dir_chain)
            &&& sound_chain(after, bpb, clusters)
            &&& apart(clusters, dir_chain)
            &&& holds(after, bpb, clusters, contents)
            &&& if contents.len() > 0 {
                clusters.len() > 0 && clusters[0] == first
            } else {
                first == 0
            }
        },
{
    let disk = device.sectors();
    let had = table::cluster_chain(disk, bpb, first_cluster);
    let size = contents.len() as int;
    assert((contents.len() as u32) as int == size);
    if size > 0 {
        let needed = flush::clusters_for(bpb, size);
        let (grown, clusters) = flush::grow(
            disk,
            bpb,
            had,
            flush::last_of(had),
            needed,
        ).unwrap();
        lemma_grow_linked(device, disk, bpb, had, dir_chain, needed);
        lemma_grow_prefix(disk, bpb, had, flush::last_of(had), needed);
        lemma_enough_room(bpb, clusters, size);
        assert(linked_chain(grown, bpb, clusters));
        let total = data::sectors_in(bpb, clusters);
        assert(data::room_for(bpb, clusters, 0, size) == size);
        assert forall|k: int| data::in_write(0, size, k) implies 0 <= #[trigger] data::chain_lba(
            bpb,
            clusters,
            k,
        ) < disk.len() by {
            assert(table::has_sector(device, data::chain_lba(bpb, clusters, k)));
        }
        data::lemma_sectors_distinct(bpb, clusters);
        data::lemma_write_places(grown, bpb, clusters, 0, contents, 0);
        let (after, count) = data::write_from(grown, bpb, clusters, 0, contents, 0);
        assert(count == size);
        assert(same_table(grown, after, bpb)) by {
            assert forall|i: int| 0 <= i < table_end(bpb) && i < grown.len()
                implies #[trigger] grown[i] == after[i] by {
                assert forall|k: int| data::in_write(0, count, k) implies i
                    != #[trigger] data::chain_lba(bpb, clusters, k) by {
                    assert(0 <= k < total);
                    lemma_data_behind(grown, bpb, clusters, k);
                }
            }
        }
        lemma_links_kept(grown, after, bpb, clusters);
        assert(sound_dir(grown, bpb, dir_chain));
        lemma_still_sound(grown, after, bpb, dir_chain);
        assert forall|j: int| 0 <= j < place_count(bpb, dir_chain) implies after[#[trigger] place(
            bpb,
            dir_chain,
            j,
        )] == disk[place(bpb, dir_chain, j)] by {
            let lba = place(bpb, dir_chain, j);
            lemma_place_behind(disk, bpb, dir_chain, j);
            assert forall|k: int| data::in_write(0, count, k) implies lba
                != #[trigger] data::chain_lba(bpb, clusters, k) by {
                assert(0 <= k < total);
                lemma_place_apart(disk, bpb, dir_chain, clusters, j, k);
            }
            assert(after[lba] == grown[lba]);
            assert(grown[lba] == disk[lba]);
        }
        lemma_held_kept(disk, after, bpb, dir_chain);
        assert(holds(after, bpb, clusters, contents)) by {
            assert forall|k: int| 0 <= k < data::sectors_for(size) implies 0
                <= #[trigger] data::chain_lba(bpb, clusters, k) < after.len() by {
                assert(data::in_write(0, size, k));
            }
            assert forall|i: int| 0 <= i < size implies #[trigger] data::chain_bytes(
                after,
                bpb,
                clusters,
            )[i] == contents[i] by {
                assert(data::in_write(0, size, i / 512));
                assert(0 <= data::chain_lba(bpb, clusters, i / 512) < grown.len());
            }
        }
    } else {
        let after = table::fat_fill(disk, bpb, had, 0);
        assert forall|i: int| 0 <= i < had.len() implies table::in_table(bpb, #[trigger] had[i])
            && table::entry_on_disk(disk, bpb, had[i]) by {
            assert(table::entry_writable(device, bpb, had[i]));
        }
        lemma_fill_other(disk, bpb, had, dir_chain);
        assert forall|j: int| 0 <= j < place_count(bpb, dir_chain) implies after[#[trigger] place(
            bpb,
            dir_chain,
            j,
        )] == disk[place(bpb, dir_chain, j)] by {
            lemma_place_behind(disk, bpb, dir_chain, j);
        }
        lemma_held_kept(disk, after, bpb, dir_chain);
        assert(sound_dir(after, bpb, dir_chain));
        assert(data::sectors_in(bpb, Seq::<u32>::empty()) == 0);
    }
}

/// A slot never crosses the end of its sector.
proof fn lemma_slot_in_sector(at: int)
    requires
        at >= 0,
        at % 32 == 0,
    ensures
        at / 512 * 512 <= at,
        at + 32 <= at / 512 * 512 + 512,
{
    assert(at == 512 * (at / 512) + at % 512);
    assert((at % 512) % 32 == 0);
}

/// Whether two disks agree on all the sectors of a chain that are on them.
pub open spec fn same_on(a: Seq<Seq<u8>>, b: Seq<Seq<u8>>, bpb: FatBpb, chain: Seq<u32>) -> bool {
    &&& a.len() == b.len()
    &&& forall|k: int|
        0 <= k < data::sectors_in(bpb, chain) && 0 <= #[trigger] data::chain_lba(bpb, chain, k)
            < a.len() ==> b[data::chain_lba(bpb, chain, k)] == a[data::chain_lba(bpb, chain, k)]
}

/// A chain holds the same where its sectors are the same.
proof fn lemma_still_holds(
    a: Seq<Seq<u8>>,
    b: Seq<Seq<u8>>,
    bpb: FatBpb,
    chain: Seq<u32>,
    contents: Seq<u8>,
)
    requires
        same_on(a, b, bpb, chain),
        holds(a, bpb, chain, contents),
    ensures
        holds(b, bpb, chain, contents),
{
    assert forall|i: int| 0 <= i < contents.len() implies #[trigger] data::chain_bytes(
        b,
        bpb,
        chain,
    )[i] == contents[i] by {
        assert(0 <= i / 512 < data::sectors_in(bpb, chain));
        assert(0 <= i / 512 < data::sectors_for(contents.len() as int));
        let lba = data::chain_lba(bpb, chain, i / 512);
        assert(0 <= lba < a.len());
        assert(data::chain_bytes(a, bpb, chain)[i] == a[lba][i % 512]);
    }
    assert forall|k: int| 0 <= k < data::sectors_for(contents.len() as int) implies 0
        <= #[trigger] data::chain_lba(bpb, chain, k) < b.len() by {}
}

/// A chain on the disk reads the same where its sectors are the same.
proof fn lemma_chain_kept(a: Seq<Seq<u8>>, b: Seq<Seq<u8>>, bpb: FatBpb, chain: Seq<u32>)
    requires
        bpb.wf(),
        data::chain_on_disk(a, bpb, chain),
        same_on(a, b, bpb, chain),
    ensures
        data::chain_bytes(b, bpb, chain) == data::chain_bytes(a, bpb, chain),
{
    let x = data::chain_bytes(a, bpb, chain);
    let y = data::chain_bytes(b, bpb, chain);
    assert forall|i: int| 0 <= i < x.len() implies x[i] == y[i] by {
        assert(0 <= i / 512 < data::sectors_in(bpb, chain));
        assert(0 <= data::chain_lba(bpb, chain, i / 512) < a.len());
    }
    assert(x =~= y);
}

/// A changed slot of a directory that is flushed is what the directory reads as afterwards.
/// Chains without a cluster of the directory keep their links and their bytes.
#[verifier::spinoff_prover]
pub proof fn lemma_slot_written(
    disk: Seq<Seq<u8>>,
    bpb: FatBpb,
    chain: Seq<u32>,
    other: Seq<u32>,
    new: Seq<u8>,
    at: int,
)
    requires
        well_laid(disk, bpb),
        sound_dir(disk, bpb, chain),
        sound_chain(disk, bpb, other),
        apart(other, chain),
        dir::in_bytes(new, at),
        at % 32 == 0,
        new.len() == dir::held_bytes(disk, bpb, chain).len(),
        forall|i: int|
            0 <= i < new.len() && !(at <= i < at + 32) ==> #[trigger] new[i] == dir::held_bytes(
                disk,
                bpb,
                chain,
            )[i],
    ensures
        ({
            let after = dir::slot_flushed(disk, bpb, chain, new, at);
            &&& well_laid(after, bpb)
            &&& sound_dir(after, bpb, chain)
            &&& dir::held_bytes(after, bpb, chain) == new
            &&& sound_chain(after, bpb, other)
            &&& same_on(disk, after, bpb, other)
        }),
{
    let raw = dir::held_bytes(disk, bpb, chain);
    let after = dir::slot_flushed(disk, bpb, chain, new, at);
    let k = at / 512;
    let lba = place(bpb, chain, k);
    lemma_held(disk, bpb, chain);
    lemma_held(after, bpb, chain);
    lemma_slot_in_sector(at);
    assert(0 <= k < place_count(bpb, chain));
    lemma_place_behind(disk, bpb, chain, k);
    assert(dir::slot_lba(bpb, chain, at) == lba);
    assert(after == disk.update(lba, data::padded_sector(new, k * 512)));
    lemma_still_sound(disk, after, bpb, chain);
    lemma_links_kept(disk, after, bpb, other);
    let bytes_after = dir::held_bytes(after, bpb, chain);
    assert forall|i: int| 0 <= i < new.len() implies #[trigger] bytes_after[i] == new[i] by {
        let j = i / 512;
        assert(i == j * 512 + i % 512);
        assert(0 <= j < place_count(bpb, chain));
        lemma_place_behind(disk, bpb, chain, j);
        if j == k {
            assert(after[lba] == data::padded_sector(new, k * 512));
        } else {
            lemma_places_distinct(disk, bpb, chain, j, k);
            assert(raw[i] == disk[place(bpb, chain, j)][i % 512]);
            assert(new[i] == raw[i]);
        }
    }
    assert(bytes_after =~= new);
    assert forall|j: int|
        0 <= j < data::sectors_in(bpb, other) && 0 <= #[trigger] data::chain_lba(bpb, other, j)
            < disk.len() implies after[data::chain_lba(bpb, other, j)] == disk[data::chain_lba(
        bpb,
        other,
        j,
    )] by {
        lemma_place_apart(disk, bpb, chain, other, k, j);
        lemma_data_behind(disk, bpb, other, j);
    }
}

/// A full directory that gets a further cluster with a new entry reads as before with the
/// entry, and zeros, behind it. Chains without a cluster of the directory keep their links
/// and their bytes.
#[verifier::spinoff_prover]
#[verifier::rlimit(60)]
proof fn lemma_dir_grown(
    disk: Seq<Seq<u8>>,
    bpb: FatBpb,
    chain: Seq<u32>,
    other: Seq<u32>,
    fresh: u32,
    new_entry: Seq<u8>,
)
    requires
        well_laid(disk, bpb),
        chain.len() > 0,
        sound_dir(disk, bpb, chain),
        sound_chain(disk, bpb, other),
        apart(other, chain),
        chain.len() < table::MAX_CHAIN,
        table::in_table(bpb, fresh),
        2 <= fresh < bpb.end_mark(),
        table::fat_get(disk, bpb, fresh) == 0,
        table::entry_on_disk(disk, bpb, fresh),
        table::entry_on_disk(disk, bpb, chain.last()),
        0 <= bpb.cluster_lba(fresh),
        bpb.cluster_lba(fresh) + bpb.sectors_per_cluster <= disk.len(),
        new_entry.len() == 32,
    ensures
        ({
            let after = dir::grown(disk, bpb, chain, fresh, new_entry);
            let raw = data::chain_bytes(disk, bpb, chain);
            &&& well_laid(after, bpb)
            &&& sound_dir(after, bpb, chain.push(fresh))
            &&& dir::held_bytes(after, bpb, chain.push(fresh)) == raw + new_entry + Seq::new(
                (flush::cluster_bytes(bpb) - 32) as nat,
                |i: int| 0u8,
            )
            &&& sound_chain(after, bpb, other)
            &&& same_on(disk, after, bpb, other)
        }),
{
    let spc = bpb.sectors_per_cluster as int;
    let longer = chain.push(fresh);
    let n = chain.len() as int;
    assert(chain.last() == chain[n - 1]);
    lemma_link_extends_all(disk, bpb, chain, other, fresh);
    let linked = dir::grown_table(disk, bpb, chain, fresh);
    let cleared = dir::zeroed_cluster(linked, bpb, fresh);
    let raw = data::chain_bytes(disk, bpb, chain);
    let after = dir::grown(disk, bpb, chain, fresh, new_entry);
    let start = bpb.cluster_lba(fresh);
    let patched = bytes::overlay(raw + Seq::new(512, |i: int| 0u8), raw.len() as int, new_entry);
    data::lemma_sector_index(bpb, longer, n, 0);
    data::lemma_sector_index(bpb, longer, n, spc - 1);
    assert(data::sectors_in(bpb, longer) == n * spc + spc) by (nonlinear_arith)
        requires
            data::sectors_in(bpb, longer) == longer.len() * spc,
            longer.len() == n + 1,
    ;
    assert(raw.len() == n * spc * 512);
    assert(raw.len() as int / 512 == n * spc);
    assert(dir::dir_lba(bpb, longer, raw.len() as int) == start);
    assert(after == cleared.update(start, data::padded_sector(patched, n * spc * 512)));
    lemma_longer_on_disk(disk, bpb, chain, fresh);
    assert(0 <= data::chain_lba(bpb, longer, n * spc) < disk.len());
    // Where each sector stands.
    assert forall|k: int| 0 <= k < n * spc implies {
        &&& #[trigger] data::chain_lba(bpb, longer, k) == data::chain_lba(bpb, chain, k)
        &&& after[data::chain_lba(bpb, longer, k)] == disk[data::chain_lba(bpb, chain, k)]
    } by {
        data::lemma_index_bound(k, spc, n);
        assert(longer[k / spc] == chain[k / spc]);
        let lba = data::chain_lba(bpb, longer, k);
        assert(0 <= lba < disk.len());
        lemma_data_behind(disk, bpb, longer, k);
        assert(!(start <= lba < start + spc)) by {
            if start <= lba < start + spc {
                let s = lba - start;
                data::lemma_sector_index(bpb, longer, n, s);
                data::lemma_sectors_distinct(bpb, longer);
                assert(data::chain_lba(bpb, longer, k) != data::chain_lba(bpb, longer, n * spc + s));
            }
        }
        assert(linked[lba] == disk[lba]);
    }
    assert forall|s: int| 0 <= s < spc implies after[#[trigger] (start + s)] == if s == 0 {
        data::padded_sector(patched, n * spc * 512)
    } else {
        data::padded_sector(Seq::empty(), s * 512)
    } by {
        data::lemma_sector_index(bpb, longer, n, s);
        assert(0 <= data::chain_lba(bpb, longer, n * spc + s) < disk.len());
    }
    let want = raw + new_entry + Seq::new((flush::cluster_bytes(bpb) - 32) as nat, |i: int| 0u8);
    let got = dir::held_bytes(after, bpb, longer);
    assert(got.len() == want.len());
    assert forall|i: int| 0 <= i < got.len() implies got[i] == want[i] by {
        let k = i / 512;
        assert(i == k * 512 + i % 512);
        assert(got[i] == after[data::chain_lba(bpb, longer, k)][i % 512]);
        if k < n * spc {
            assert(raw[i] == disk[data::chain_lba(bpb, chain, k)][i % 512]);
        } else {
            let s = k - n * spc;
            data::lemma_sector_index(bpb, longer, n, s);
            assert(after[start + s][i % 512] == want[i]);
        }
    }
    assert(got =~= want);
    // The table is the linked one, and other chains are untouched.
    assert forall|i: int| 0 <= i < table_end(bpb) && i < linked.len()
        implies #[trigger] linked[i] == after[i] by {
        lemma_data_behind(disk, bpb, longer, n * spc);
    }
    assert(well_laid(linked, bpb));
    lemma_links_kept(linked, after, bpb, longer);
    lemma_links_kept(linked, after, bpb, other);
    assert forall|j: int|
        0 <= j < data::sectors_in(bpb, other) && 0 <= #[trigger] data::chain_lba(bpb, other, j)
            < disk.len() implies after[data::chain_lba(bpb, other, j)] == disk[data::chain_lba(
        bpb,
        other,
        j,
    )] by {
        let lba = data::chain_lba(bpb, other, j);
        lemma_data_behind(disk, bpb, other, j);
        assert(!(start <= lba < start + spc)) by {
            if start <= lba < start + spc {
                let s = lba - start;
                data::lemma_sector_index(bpb, longer, n, s);
                lemma_chains_apart(bpb, other, longer, j, n * spc + s);
            }
        }
        assert(0 <= lba < disk.len());
        assert(linked[lba] == disk[lba]);
    }
}

/// A chain on the disk with a further cluster on the disk is on the disk.
proof fn lemma_longer_on_disk(disk: Seq<Seq<u8>>, bpb: FatBpb, chain: Seq<u32>, fresh: u32)
    requires
        bpb.wf(),
        data::chain_on_disk(disk, bpb, chain),
        0 <= bpb.cluster_lba(fresh),
        bpb.cluster_lba(fresh) + bpb.sectors_per_cluster <= disk.len(),
    ensures
        data::chain_on_disk(disk, bpb, chain.push(fresh)),
{
    let spc = bpb.sectors_per_cluster as int;
    let longer = chain.push(fresh);
    let n = chain.len() as int;
    assert forall|k: int| 0 <= k < data::sectors_in(bpb, longer) implies 0
        <= #[trigger] data::chain_lba(bpb, longer, k) < disk.len() by {
        data::lemma_index_bound(k, spc, longer.len() as int);
        vstd::arithmetic::div_mod::lemma_fundamental_div_mod(k, spc);
        let q = k / spc;
        if q < n {
            assert(longer[q] == chain[q]);
            assert(k < n * spc) by (nonlinear_arith)
                requires
                    k == spc * q + k % spc,
                    0 <= k % spc < spc,
                    q + 1 <= n,
            ;
            assert(0 <= data::chain_lba(bpb, chain, k) < disk.len());
        } else {
            assert(longer[q] == fresh);
        }
    }
}

/// The links of a directory that gets a further cluster.
proof fn lemma_link_extends_all(
    disk: Seq<Seq<u8>>,
    bpb: FatBpb,
    chain: Seq<u32>,
    other: Seq<u32>,
    fresh: u32,
)
    requires
        bpb.num_fats >= 1,
        data::full_sectors(disk),
        linked_chain(disk, bpb, chain),
        sound_chain(disk, bpb, other),
        apart(other, chain),
        chain.len() < table::MAX_CHAIN,
        table::in_table(bpb, fresh),
        table::entry_on_disk(disk, bpb, fresh),
        table::entry_on_disk(disk, bpb, chain.last()),
        2 <= fresh < bpb.end_mark(),
        table::fat_get(disk, bpb, fresh) == 0,
    ensures
        ({
            let d = dir::grown_table(disk, bpb, chain, fresh);
            &&& data::full_sectors(d)
            &&& same_behind(disk, d, bpb)
            &&& linked_chain(d, bpb, chain.push(fresh))
            &&& sound_chain(d, bpb, other)
            &&& apart(other, chain.push(fresh))
        }),
{
    assert(apart(chain, other));
    lemma_link_extends(disk, bpb, chain, other, fresh);
    assert(chain.last() == chain[chain.len() - 1]);
    assert(dir::grown_table(disk, bpb, chain, fresh) == flush::linked(
        disk,
        bpb,
        flush::last_of(chain),
        fresh,
    ));
}

/// A new first cluster and size in the entry of a name are what the name is found with, at
/// the same place.
proof fn lemma_pointed_found(
    raw: Seq<u8>,
    start: int,
    pending: Seq<(u8, Seq<char>)>,
    name: Seq<char>,
    at: int,
    e: EntryView,
    first_cluster: u32,
    size: u32,
)
    requires
        start >= 0,
        dir::first_named(dir::scan(raw, start, pending, true), name) == Some((at, e)),
    ensures
        dir::first_named(dir::scan(dir::pointed(raw, at, first_cluster, size), start, pending, true), name) == Some(
            (at, EntryView { first_cluster, size, ..e }),
        ),
    decreases raw.len() - start,
{
    let new = dir::pointed(raw, at, first_cluster, size);
    let now = dir::scan(raw, start, pending, true);
    lemma_scan_positions(raw, start, pending, true);
    lemma_first_named_member(now, name);
    assert(start <= at && at + 32 <= raw.len() && (at - start) % 32 == 0);
    if start + 32 > raw.len() || raw[start] == 0 {
        assert(false);
    }
    let slot = raw.subrange(start, start + 32);
    let new_slot = new.subrange(start, start + 32);
    let next = dir::after_slot(slot, pending, true);
    let rest = dir::scan(raw, start + 32, next, true);
    lemma_scan_positions(raw, start + 32, next, true);
    lemma_first_named_member(rest, name);
    if at != start {
        assert(at >= start + 32);
        assert(new_slot =~= slot);
        assert(new[start] == raw[start]);
        let new_rest = dir::scan(new, start + 32, next, true);
        if !dir::is_long(slot) {
            if let Some(e0) = entry::entry_of(slot) {
                let item = (start, dir::renamed(e0, pending));
                dir::lemma_first_named_push(item, rest, name);
                dir::lemma_first_named_push(item, new_rest, name);
            }
        }
        lemma_pointed_found(raw, start + 32, next, name, at, e, first_cluster, size);
    } else {
        assert forall|i: int| 0 <= i < 20 implies new_slot[i] == slot[i] by {
            assert(new[start + i] == raw[start + i]);
        }
        assert(!dir::is_long(slot) && entry::entry_of(slot) is Some);
        let new_rest = dir::scan(new, start + 32, Seq::empty(), true);
        let e0 = entry::entry_of(slot).unwrap();
        let item = (start, dir::renamed(e0, pending));
        dir::lemma_first_named_push(item, rest, name);
        assert(item == (at, e));
        lemma_slot_pointed(slot, new_slot, first_cluster, size);
        let new_item = (start, dir::renamed(EntryView { first_cluster, size, ..e0 }, pending));
        dir::lemma_first_named_push(new_item, new_rest, name);
    }
}

proof fn lemma_text_same(a: Seq<u8>, b: Seq<u8>, from: int, to: int)
    requires
        0 <= from,
        to <= a.len(),
        to <= b.len(),
        forall|i: int| from <= i < to ==> a[i] == b[i],
    ensures
        entry::text_len(a, from, to) == entry::text_len(b, from, to),
        entry::text_len(a, from, to) <= if to > from {
            to - from
        } else {
            0
        },
        entry::field_text(a, from, to) == entry::field_text(b, from, to),
    decreases to - from,
{
    if from < to {
        lemma_text_same(a, b, from + 1, to);
    }
    assert(entry::field_text(a, from, to) =~= entry::field_text(b, from, to));
}

#[verifier::spinoff_prover]
#[verifier::rlimit(60)]
proof fn lemma_slot_pointed(slot: Seq<u8>, new_slot: Seq<u8>, first_cluster: u32, size: u32)
    requires
        slot.len() == 32,
        new_slot.len() == 32,
        slot[11] != 0x0F,
        entry::entry_of(slot) is Some,
        forall|i: int| 0 <= i < 20 ==> new_slot[i] == slot[i],
        new_slot[20] == bytes::byte_of(first_cluster, 2),
        new_slot[21] == bytes::byte_of(first_cluster, 3),
        new_slot[26] == bytes::byte_of(first_cluster, 0),
        new_slot[27] == bytes::byte_of(first_cluster, 1),
        forall|i: int| 0 <= i < 4 ==> new_slot[28 + i] == #[trigger] bytes::byte_of(size, i),
    ensures
        entry::entry_of(new_slot) == Some(EntryView { first_cluster, size, ..entry::entry_of(slot).unwrap() }),
{
    lemma_text_same(slot, new_slot, 0, 8);
    lemma_text_same(slot, new_slot, 8, 11);
    assert(new_slot[28int + 0] == bytes::byte_of(size, 0));
    assert(new_slot[28int + 1] == bytes::byte_of(size, 1));
    assert(new_slot[28int + 2] == bytes::byte_of(size, 2));
    assert(new_slot[28int + 3] == bytes::byte_of(size, 3));
    assert(bytes::le32(new_slot, 28) == size);
    assert(entry::entry_cluster(new_slot) == first_cluster);
}

/// The parts of a long name that a scan has collected when it comes to byte `at`.
pub open spec fn pending_at(
    raw: Seq<u8>,
    start: int,
    pending: Seq<(u8, Seq<char>)>,
    at: int,
) -> Seq<(u8, Seq<char>)>
    decreases at - start,
{
    if start + 32 > at {
        pending
    } else {
        pending_at(
            raw,
            start + 32,
            dir::after_slot(raw.subrange(start, start + 32), pending, true),
            at,
        )
    }
}

/// Where the next entry of a directory goes: into its first free slot, or behind it.
pub open spec fn next_slot(raw: Seq<u8>, start: int) -> int {
    match dir::free_slot(raw, start) {
        Some(at) => at,
        None => raw.len() as int,
    }
}

proof fn lemma_next_slot(raw: Seq<u8>, start: int)
    requires
        0 <= start <= raw.len(),
        (raw.len() - start) % 32 == 0,
    ensures
        start <= next_slot(raw, start) <= raw.len(),
        (next_slot(raw, start) - start) % 32 == 0,
        dir::free_slot(raw, start) matches Some(at) ==> at + 32 <= raw.len(),
    decreases raw.len() - start,
{
    if start + 32 <= raw.len() && raw[start] != 0xE5 && raw[start] != 0 {
        lemma_next_slot(raw, start + 32);
    }
}

/// An entry in the first free slot of a directory, or behind a full one, is found by its
/// name if nothing was before, and no long name is left over in front of it.
proof fn lemma_new_found(
    raw: Seq<u8>,
    new: Seq<u8>,
    start: int,
    pending: Seq<(u8, Seq<char>)>,
    name: Seq<char>,
    e: EntryView,
)
    requires
        0 <= start <= next_slot(raw, start),
        (raw.len() - start) % 32 == 0,
        raw.len() >= start,
        next_slot(raw, start) + 32 <= new.len(),
        forall|i: int| start <= i < next_slot(raw, start) ==> new[i] == raw[i],
        dir::first_named(dir::scan(raw, start, pending, true), name) is None,
        dir::joined(pending_at(raw, start, pending, next_slot(raw, start))).len() == 0,
        new[next_slot(raw, start)] != 0,
        new[next_slot(raw, start) + 11] != 0x0F,
        entry::entry_of(
            new.subrange(next_slot(raw, start), next_slot(raw, start) + 32),
        ) == Some(e),
        e.name == name,
    ensures
        dir::first_named(dir::scan(new, start, pending, true), name) == Some(
            (next_slot(raw, start), e),
        ),
    decreases raw.len() - start,
{
    let at = next_slot(raw, start);
    lemma_next_slot(raw, start);
    if start == at {
        let rest = dir::scan(new, start + 32, Seq::empty(), true);
        let slot = new.subrange(start, start + 32);
        assert(slot[11] == new[at + 11]);
        dir::lemma_first_named_push((start, dir::renamed(e, pending)), rest, name);
    } else {
        assert(start + 32 <= raw.len());
        assert(raw[start] != 0xE5 && raw[start] != 0);
        assert(next_slot(raw, start + 32) == at);
        assert(at >= start + 32);
        let slot = raw.subrange(start, start + 32);
        assert(new.subrange(start, start + 32) =~= slot);
        assert(new[start] == raw[start]);
        let next = dir::after_slot(slot, pending, true);
        let rest = dir::scan(raw, start + 32, next, true);
        let new_rest = dir::scan(new, start + 32, next, true);
        if !dir::is_long(slot) {
            if let Some(e0) = entry::entry_of(slot) {
                let item = (start, dir::renamed(e0, pending));
                dir::lemma_first_named_push(item, rest, name);
                dir::lemma_first_named_push(item, new_rest, name);
            }
        }
        lemma_new_found(raw, new, start + 32, next, name, e);
    }
}

/// Whether a byte stands for itself in a stored name: no blank, no zero, no upper-case
/// letter.
pub open spec fn plain_byte(b: u8) -> bool {
    b != 0x20 && b != 0 && !(0x41 <= b <= 0x5A)
}

proof fn lemma_text_len_is(buf: Seq<u8>, from: int, to: int, n: int)
    requires
        0 <= from,
        0 <= n <= to - from,
        to <= buf.len(),
        forall|i: int| from <= i < from + n ==> buf[i] != 0x20 && buf[i] != 0,
        n < to - from ==> buf[from + n] == 0x20,
    ensures
        entry::text_len(buf, from, to) == n,
    decreases n,
{
    if n > 0 {
        lemma_text_len_is(buf, from + 1, to, n - 1);
    }
}

/// An entry that was written under a name in lower case is read back under that name,
/// with the attributes, the first cluster and the size that it was written with.
#[verifier::spinoff_prover]
#[verifier::rlimit(60)]
pub proof fn law_entry_read_after_write(
    name: Seq<u8>,
    attributes: u8,
    first_cluster: u32,
    size: u32,
)
    requires
        entry::short_name(name) is Some,
        forall|i: int| 0 <= i < name.len() ==> plain_byte(#[trigger] name[i]),
        name[0] != 0xE5,
        name.last() != 0x2E,
        attributes != 0x0F,
        attributes & 0x08 == 0,
    ensures
        entry::entry_of(
            entry::entry_bytes(
                entry::short_name(name).unwrap(),
                attributes,
                first_cluster,
                size,
            ),
        ) == Some(
            EntryView {
                name: Seq::new(name.len(), |i: int| name[i] as char),
                attributes,
                first_cluster,
                size,
                is_lfn: false,
            },
        ),
{
    let short = entry::short_name(name).unwrap();
    let buf = entry::entry_bytes(short, attributes, first_cluster, size);
    entry::lemma_dot_from(name, 0);
    let dot = entry::dot_from(name, 0);
    let ext = if dot < name.len() {
        name.len() - dot - 1
    } else {
        0
    };
    assert forall|i: int| 0 <= i < dot implies buf[i] == entry::upper(name[i]) by {}
    assert forall|i: int| 8 <= i < 8 + ext implies buf[i] == entry::upper(name[dot + 1 + i - 8]) by {}
    lemma_text_len_is(buf, 0, 8, dot);
    lemma_text_len_is(buf, 8, 11, ext);
    assert(ext == 0 ==> dot == name.len());
    let want = Seq::new(name.len(), |i: int| name[i] as char);
    assert(entry::dotted_name(buf) =~= want) by {
        assert forall|i: int| 0 <= i < name.len() implies entry::dotted_name(buf)[i] == want[i] by {
            assert(plain_byte(name[i]));
            if i > dot {
                let k = i - dot - 1;
                assert(buf[8 + k] == entry::upper(name[dot + 1 + k]));
            }
        }
    }
    assert(bytes::le32(buf, 28) == size) by {
        assert(buf[28] == bytes::byte_of(size, 0));
        assert(buf[29] == bytes::byte_of(size, 1));
        assert(buf[30] == bytes::byte_of(size, 2));
        assert(buf[31] == bytes::byte_of(size, 3));
    }
    assert(entry::entry_cluster(buf) == first_cluster) by {
        assert(buf[20] == bytes::byte_of(first_cluster, 2));
        assert(buf[21] == bytes::byte_of(first_cluster, 3));
        assert(buf[26] == bytes::byte_of(first_cluster, 0));
        assert(buf[27] == bytes::byte_of(first_cluster, 1));
    }
}

/// Whether an 8.3 name reads back as it is: ASCII, in lower case, and without a dot at
/// its end.
pub open spec fn plain_name(name: Seq<char>) -> bool {
    let text = vstd::utf8::encode_utf8(name);
    &&& vstd::utf8::is_ascii_chars(name)
    &&& entry::short_name(text) is Some
    &&& forall|i: int| 0 <= i < text.len() ==> plain_byte(#[trigger] text[i])
    &&& text.last() != 0x2E
}

/// Whether a directory can take one more entry: it has a free slot, or there is a free
/// cluster for it to grow by, with its entry inside the table.
pub open spec fn dir_has_room(disk: Seq<Seq<u8>>, bpb: FatBpb, chain: Seq<u32>) -> bool {
    dir::free_slot(dir::held_bytes(disk, bpb, chain), 0) is Some || {
        &&& 0 < chain.len() < table::MAX_CHAIN
        &&& flush::next_free(disk, bpb, dir::dir_hint(chain.last())) matches Some(c)
            && table::in_table(bpb, c)
    }
}

/// Whether a directory has no entry with a given name, and no long name is left over in
/// front of the slot that its next entry goes to.
pub open spec fn takes_name(raw: Seq<u8>, name: Seq<char>) -> bool {
    &&& dir::locate(raw, name, true) is None
    &&& dir::joined(pending_at(raw, 0, Seq::empty(), next_slot(raw, 0))).len() == 0
}

/// What an entry written under a plain name says.
proof fn lemma_plain_entry(name: Seq<char>, attributes: u8, first_cluster: u32, size: u32)
    requires
        plain_name(name),
        attributes == 0x10 || attributes == 0x20,
    ensures
        ({
            let text = vstd::utf8::encode_utf8(name);
            let slot = entry::entry_bytes(
                entry::short_name(text).unwrap(),
                attributes,
                first_cluster,
                size,
            );
            &&& slot.len() == 32
            &&& slot[0] != 0
            &&& slot[11] == attributes
            &&& entry::entry_of(slot) == Some(
                EntryView { name, attributes, first_cluster, size, is_lfn: false },
            )
        }),
{
    let text = vstd::utf8::encode_utf8(name);
    vstd::utf8::is_ascii_chars_encode_utf8(name);
    entry::lemma_dot_from(text, 0);
    assert(text.len() > 0);
    assert(plain_byte(text[0]));
    assert(name[0] as u8 == text[0]);
    assert(0x10u8 & 0x08 == 0 && 0x20u8 & 0x08 == 0) by (bit_vector);
    law_entry_read_after_write(text, attributes, first_cluster, size);
    assert forall|i: int| 0 <= i < name.len() implies #[trigger] name[i] == text[i] as char by {
        assert(name[i] as u8 == text[i]);
    }
    assert(Seq::new(text.len(), |i: int| text[i] as char) =~= name);
}

/// Whether the sectors that it takes to put a cluster behind a directory are on the disk.
pub open spec fn can_grow(disk: Seq<Seq<u8>>, bpb: FatBpb, chain: Seq<u32>, fresh: u32) -> bool {
    &&& table::entry_on_disk(disk, bpb, fresh)
    &&& table::entry_on_disk(disk, bpb, chain.last())
    &&& 0 <= bpb.cluster_lba(fresh)
    &&& bpb.cluster_lba(fresh) + bpb.sectors_per_cluster <= disk.len()
}

/// Whether they are on the disk if the directory is full.
pub open spec fn open_to_growth(disk: Seq<Seq<u8>>, bpb: FatBpb, chain: Seq<u32>) -> bool {
    dir::free_slot(dir::held_bytes(disk, bpb, chain), 0) is None && chain.len() > 0 ==> (
    flush::next_free(disk, bpb, dir::dir_hint(chain.last())) matches Some(c) ==> can_grow(
        disk,
        bpb,
        chain,
        c,
    ))
}

/// Where adding an entry meets no missing sector, a full directory can grow.
proof fn lemma_growth_open<D: BlockDevice>(
    device: &D,
    disk: Seq<Seq<u8>>,
    bpb: FatBpb,
    chain: Seq<u32>,
)
    requires
        bpb.wf(),
        data::full_sectors(disk),
        device.sectors().len() == disk.len(),
        !flush::add_blocked(device, disk, bpb, chain),
    ensures
        open_to_growth(disk, bpb, chain),
{
    if chain.len() > 0 && dir::free_slot(dir::held_bytes(disk, bpb, chain), 0) is None {
        let hint = dir::dir_hint(chain.last());
        if let Some(fresh) = flush::next_free(disk, bpb, hint) {
            assert(table::search_reaches(disk, bpb, hint, fresh) && table::fat_get(
                disk,
                bpb,
                fresh,
            ) == 0);
            assert(!dir::growth_blocked(device, bpb, chain, fresh));
            lemma_writable_there(device, disk, bpb, fresh);
            lemma_writable_there(device, disk, bpb, chain.last());
        }
    }
}

/// An entry that was added to a directory is found by its name, and other chains keep their
/// links and their bytes.
#[verifier::spinoff_prover]
#[verifier::rlimit(60)]
proof fn lemma_added_found(
    disk: Seq<Seq<u8>>,
    bpb: FatBpb,
    chain: Seq<u32>,
    other: Seq<u32>,
    name: Seq<char>,
    attributes: u8,
    first_cluster: u32,
    size: u32,
)
    requires
        well_laid(disk, bpb),
        sound_dir(disk, bpb, chain),
        sound_chain(disk, bpb, other),
        apart(other, chain),
        plain_name(name),
        attributes == 0x10 || attributes == 0x20,
        dir_has_room(disk, bpb, chain),
        takes_name(dir::held_bytes(disk, bpb, chain), name),
        open_to_growth(disk, bpb, chain),
    ensures
        flush::entry_added(
            disk,
            bpb,
            chain,
            entry::entry_bytes(
                entry::short_name(vstd::utf8::encode_utf8(name)).unwrap(),
                attributes,
                first_cluster,
                size,
            ),
        ) matches Some((after, longer)) && {
            &&& well_laid(after, bpb)
            &&& sound_dir(after, bpb, longer)
            &&& chain.len() == 0 ==> longer.len() == 0
            &&& chain.len() > 0 ==> longer.len() > 0 && longer[0] == chain[0]
            &&& dir::locate(dir::held_bytes(after, bpb, longer), name, true) == Some(
                (
                    next_slot(dir::held_bytes(disk, bpb, chain), 0),
                    EntryView { name, attributes, first_cluster, size, is_lfn: false },
                ),
            )
            &&& sound_chain(after, bpb, other)
            &&& same_on(disk, after, bpb, other)
        },
{
    let slot = entry::entry_bytes(
        entry::short_name(vstd::utf8::encode_utf8(name)).unwrap(),
        attributes,
        first_cluster,
        size,
    );
    let e = EntryView { name, attributes, first_cluster, size, is_lfn: false };
    lemma_plain_entry(name, attributes, first_cluster, size);
    let raw = dir::held_bytes(disk, bpb, chain);
    lemma_held(disk, bpb, chain);
    assert(raw.len() as int % 32 == 0);
    lemma_next_slot(raw, 0);
    let at = next_slot(raw, 0);
    match dir::free_slot(raw, 0) {
        Some(_) => {
            let new = bytes::overlay(raw, at, slot);
            lemma_slot_written(disk, bpb, chain, other, new, at);
            assert(new.subrange(at, at + 32) =~= slot);
            assert(new[at] == slot[0] && new[at + 11] == slot[11]);
            lemma_new_found(raw, new, 0, Seq::empty(), name, e);
        },
        None => {
            let hint = dir::dir_hint(chain.last());
            let fresh = flush::next_free(disk, bpb, hint).unwrap();
            assert(table::search_reaches(disk, bpb, hint, fresh) && table::fat_get(
                disk,
                bpb,
                fresh,
            ) == 0);
            assert(chain.last() == chain[chain.len() - 1]);
            assert(2 <= fresh < bpb.end_mark());
            lemma_dir_grown(disk, bpb, chain, other, fresh, slot);
            let zeros = Seq::new((flush::cluster_bytes(bpb) - 32) as nat, |i: int| 0u8);
            let new = raw + slot + zeros;
            assert(new.subrange(at, at + 32) =~= slot);
            assert(new[at] == slot[0] && new[at + 11] == slot[11]);
            lemma_new_found(raw, new, 0, Seq::empty(), name, e);
        },
    }
}

/// Whether a chain is the one of a directory.
pub open spec fn is_dir_chain(location: DirLocation, chain: Seq<u32>) -> bool {
    match location {
        DirLocation::Fat16Root => chain.len() == 0,
        DirLocation::ClusterChain(c) => chain.len() > 0 && chain[0] == c,
    }
}

/// The volume that a boot sector describes has its data behind its table and, on FAT16, its
/// root directory between the two.
pub proof fn law_parsed_layout(boot: Seq<u8>, base_sector: u32)
    requires
        bpb::bpb_of(boot, base_sector) is Some,
    ensures
        ({
            let bpb = bpb::bpb_of(boot, base_sector).unwrap();
            &&& bpb.base_sector + bpb.data_start_sector >= table_end(bpb)
            &&& bpb.variant == FatVariant::Fat16 ==> root_in_front(bpb)
        }),
{
    let bpb = bpb::bpb_of(boot, base_sector).unwrap();
    let product = bpb.num_fats * bpb.fat_size_sectors;
    assert(0 <= product <= 0xFF * 0xFFFF_FFFF) by (nonlinear_arith)
        requires
            product == bpb.num_fats * bpb.fat_size_sectors,
            0 <= bpb.num_fats <= 0xFF,
            0 <= bpb.fat_size_sectors <= 0xFFFF_FFFF,
    ;
    let bps = bpb.bytes_per_sector as int;
    let span = bpb.root_entry_count * 32 + bps - 1;
    vstd::arithmetic::div_mod::lemma_div_is_ordered_by_denominator(span, 1, bps);
    vstd::arithmetic::div_mod::lemma_div_pos_is_pos(span, bps);
}

/// What a directory reads as.
pub proof fn lemma_dir_raw(disk: Seq<Seq<u8>>, bpb: FatBpb, location: DirLocation, chain: Seq<u32>)
    requires
        is_dir_chain(location, chain),
        sound_dir(disk, bpb, chain),
    ensures
        inode::dir_chain(disk, bpb, location) == chain,
        inode::dir_raw(disk, bpb, location) == dir::held_bytes(disk, bpb, chain),
{
    match location {
        DirLocation::Fat16Root => {
            assert(chain =~= Seq::empty());
        },
        DirLocation::ClusterChain(_) => {
            lemma_linked_is_read(disk, bpb, chain, table::MAX_CHAIN as nat);
        },
    }
}

/// What a file reads as.
proof fn lemma_file_read(
    disk: Seq<Seq<u8>>,
    bpb: FatBpb,
    clusters: Seq<u32>,
    first: u32,
    contents: Seq<u8>,
)
    requires
        contents.len() <= u32::MAX,
        contents.len() > 0 ==> {
            &&& linked_chain(disk, bpb, clusters)
            &&& clusters[0] == first
            &&& holds(disk, bpb, clusters, contents)
        },
    ensures
        inode::file_bytes(disk, bpb, first, contents.len() as u32) == contents,
{
    let got = inode::file_bytes(disk, bpb, first, contents.len() as u32);
    if contents.len() > 0 {
        lemma_linked_is_read(disk, bpb, clusters, table::MAX_CHAIN as nat);
        let all = data::chain_bytes(disk, bpb, clusters);
        assert forall|i: int| 0 <= i < contents.len() implies got[i] == contents[i] by {
            assert(all[i] == contents[i]);
        }
    }
    assert(got =~= contents);
}

/// Whether a directory can be relied on: the FAT16 root lies in its place, the chain of any
/// other one is tidy.
pub open spec fn tidy_dir(disk: Seq<Seq<u8>>, bpb: FatBpb, location: DirLocation) -> bool {
    &&& is_dir_chain(location, inode::dir_chain(disk, bpb, location))
    &&& match location {
        DirLocation::Fat16Root => root_in_front(bpb),
        DirLocation::ClusterChain(c) => tidy(disk, bpb, c),
    }
}

/// A tidy directory that can be read is sound.
proof fn lemma_tidy_dir<D: BlockDevice>(device: &D, bpb: FatBpb, location: DirLocation)
    requires
        bpb.wf(),
        data::full_sectors(device.sectors()),
        tidy_dir(device.sectors(), bpb, location),
        inode::dir_readable(device, bpb, location),
    ensures
        sound_dir(
            device.sectors(),
            bpb,
            inode::dir_chain(device.sectors(), bpb, location),
        ),
        dir::held_exists(
            device,
            bpb,
            inode::dir_chain(device.sectors(), bpb, location),
        ),
{
    match location {
        DirLocation::Fat16Root => {},
        DirLocation::ClusterChain(c) => {
            lemma_tidy(device, bpb, c);
            let chain = table::cluster_chain(device.sectors(), bpb, c);
            assert forall|k: int| 0 <= k < data::sectors_in(bpb, chain) implies 0
                <= #[trigger] data::chain_lba(bpb, chain, k) < device.sectors().len() by {
                assert(table::has_sector(device, data::chain_lba(bpb, chain, k)));
            }
        },
    }
}

/// Whether an open file can be closed: the chains of the file and of its directory can be
/// relied on and have no common cluster, there are clusters for what the file holds, and a
/// new file finds room for its entry.
pub open spec fn closable(disk: Seq<Seq<u8>>, h: FatFileHandle, location: DirLocation) -> bool {
    let bpb = h.inner.bpb;
    let chain = inode::dir_chain(disk, bpb, location);
    let raw = dir::held_bytes(disk, bpb, chain);
    &&& well_laid(disk, bpb)
    &&& tidy_dir(disk, bpb, location)
    &&& h.dir_chain matches Some(c) && c@ == chain
    &&& tidy(disk, bpb, h.first_cluster)
    &&& apart(table::cluster_chain(disk, bpb, h.first_cluster), chain)
    &&& has_room(disk, bpb, h.first_cluster, h.data@)
    &&& if h.is_new {
        &&& plain_name(h.dir_entry_name@)
        &&& takes_name(raw, h.dir_entry_name@)
        &&& flush::contents_flushed(disk, bpb, h.first_cluster, true, h.data@) matches Some(
            (after, _),
        ) ==> dir_has_room(after, bpb, chain)
    } else {
        dir::locate(raw, h.dir_entry_name@, true) matches Some((_, e)) && e.attributes & 0x10 == 0
    }
}

/// Whether closing a file meets no error of the device: the device is reliable and has all
/// the sectors that are read and written.
pub open spec fn no_device_error<D: BlockDevice>(
    device: &D,
    h: FatFileHandle,
    location: DirLocation,
) -> bool {
    let bpb = h.inner.bpb;
    let disk = device.sectors();
    &&& device.reliable()
    &&& inode::dir_readable(device, bpb, location)
    &&& !flush::contents_blocked(device, bpb, h.first_cluster, h.data@)
    &&& flush::contents_flushed(disk, bpb, h.first_cluster, true, h.data@) matches Some((after, _))
        ==> !flush::entry_blocked(device, after, h, inode::dir_chain(disk, bpb, location))
}

/// Whether a directory finds a file under a name, with the given first cluster and the
/// size of the given contents, and the file reads as these contents.
pub open spec fn reads_back(
    disk: Seq<Seq<u8>>,
    inner: FatInner,
    location: DirLocation,
    name: Seq<char>,
    first: u32,
    contents: Seq<u8>,
) -> bool {
    let size = contents.len() as u32;
    &&& dir::locate(inode::dir_raw(disk, inner.bpb, location), name, true) matches Some((_, e))
        && inode::inode_of(inner, e) == FatInode::File(
        FatFileInode { inner, first_cluster: first, size },
    )
    &&& size == contents.len()
    &&& inode::file_bytes(disk, inner.bpb, first, size) == contents
}

/// Without a device error the contents of a file are written.
proof fn lemma_written<D: BlockDevice>(
    a: &D,
    m: &D,
    bpb: FatBpb,
    first_cluster: u32,
    contents: Seq<u8>,
    end: ContentsEnd,
)
    requires
        a.reliable(),
        !flush::contents_blocked(a, bpb, first_cluster, contents),
        has_room(a.sectors(), bpb, first_cluster, contents),
        flush::contents_outcome(a, m, bpb, first_cluster, contents, end),
    ensures
        end matches ContentsEnd::Written(first) && flush::contents_flushed(
            a.sectors(),
            bpb,
            first_cluster,
            true,
            contents,
        ) == Some((m.sectors(), first)),
{
    assert((contents.len() as u32) as int == contents.len());
    assert(flush::file_chain_readable(a, bpb, first_cluster));
}

/// The entry of a file is written last: once the contents of a closed file are on the disk,
/// its directory still reads as it did, so that the file is found as it was before. Its new
/// contents are all there.
pub proof fn law_entry_written_last<D: BlockDevice>(
    a: &D,
    m: &D,
    h: FatFileHandle,
    location: DirLocation,
    end: ContentsEnd,
)
    requires
        closable(a.sectors(), h, location),
        no_device_error(a, h, location),
        flush::contents_outcome(a, m, h.inner.bpb, h.first_cluster, h.data@, end),
    ensures
        end matches ContentsEnd::Written(first) && {
            let bpb = h.inner.bpb;
            &&& inode::dir_raw(m.sectors(), bpb, location) == inode::dir_raw(
                a.sectors(),
                bpb,
                location,
            )
            &&& inode::file_bytes(m.sectors(), bpb, first, h.data@.len() as u32) == h.data@
        },
{
    let bpb = h.inner.bpb;
    let disk = a.sectors();
    let chain = inode::dir_chain(disk, bpb, location);
    lemma_tidy_dir(a, bpb, location);
    lemma_tidy(a, bpb, h.first_cluster);
    lemma_written(a, m, bpb, h.first_cluster, h.data@, end);
    lemma_contents(a, bpb, h.first_cluster, h.data@, chain);
    let clusters = file_clusters(disk, bpb, h.first_cluster, h.data@);
    lemma_dir_raw(disk, bpb, location, chain);
    lemma_dir_raw(m.sectors(), bpb, location, chain);
    if let ContentsEnd::Written(first) = end {
        lemma_file_read(m.sectors(), bpb, clusters, first, h.data@);
    }
}

/// The entry of a new file.
proof fn lemma_new_entry<D: BlockDevice>(
    a: &D,
    m: &D,
    b: &D,
    h: FatFileHandle,
    chain: Seq<u32>,
    longer: Seq<u32>,
    clusters: Seq<u32>,
    first: u32,
    r: Result<(), VfsError>,
)
    requires
        h.is_new,
        a.reliable(),
        table::same_geometry(a, m),
        well_laid(m.sectors(), h.inner.bpb),
        sound_dir(m.sectors(), h.inner.bpb, chain),
        sound_chain(m.sectors(), h.inner.bpb, clusters),
        apart(clusters, chain),
        plain_name(h.dir_entry_name@),
        takes_name(dir::held_bytes(m.sectors(), h.inner.bpb, chain), h.dir_entry_name@),
        dir_has_room(m.sectors(), h.inner.bpb, chain),
        !flush::entry_blocked(a, m.sectors(), h, chain),
        dir::add_outcome(
            m,
            b,
            h.inner.bpb,
            chain,
            longer,
            entry::entry_bytes(
                flush::handle_short_name(h).unwrap(),
                0x20,
                first,
                h.data@.len() as u32,
            ),
            r,
        ),
    ensures
        r is Ok,
        sound_dir(b.sectors(), h.inner.bpb, longer),
        chain.len() == 0 ==> longer.len() == 0,
        chain.len() > 0 ==> longer.len() > 0 && longer[0] == chain[0],
        dir::locate(dir::held_bytes(b.sectors(), h.inner.bpb, longer), h.dir_entry_name@, true)
            matches Some((_, e)) && e == (EntryView {
            name: h.dir_entry_name@,
            attributes: 0x20,
            first_cluster: first,
            size: h.data@.len() as u32,
            is_lfn: false,
        }),
        sound_chain(b.sectors(), h.inner.bpb, clusters),
        same_on(m.sectors(), b.sectors(), h.inner.bpb, clusters),
{
    let bpb = h.inner.bpb;
    let size = h.data@.len() as u32;
    let slot = entry::entry_bytes(flush::handle_short_name(h).unwrap(), 0x20, first, size);
    lemma_growth_open(a, m.sectors(), bpb, chain);
    lemma_added_found(m.sectors(), bpb, chain, clusters, h.dir_entry_name@, 0x20, first, size);
    flush::lemma_added(m, b, bpb, chain, longer, slot, r);
    flush::lemma_add_blocked(a, m, bpb, chain);
}

/// The changed entry of a file that was there.
proof fn lemma_changed_entry<D: BlockDevice>(
    a: &D,
    m: &D,
    b: &D,
    h: FatFileHandle,
    chain: Seq<u32>,
    clusters: Seq<u32>,
    first: u32,
    r: Result<(), VfsError>,
)
    requires
        a.reliable(),
        table::same_geometry(a, m),
        well_laid(m.sectors(), h.inner.bpb),
        sound_dir(m.sectors(), h.inner.bpb, chain),
        sound_chain(m.sectors(), h.inner.bpb, clusters),
        apart(clusters, chain),
        dir::held_exists(a, h.inner.bpb, chain),
        dir::locate(dir::held_bytes(m.sectors(), h.inner.bpb, chain), h.dir_entry_name@, true)
            is Some,
        dir::point_outcome(
            m,
            b,
            h.inner.bpb,
            chain,
            h.dir_entry_name@,
            first,
            h.data@.len() as u32,
            r,
        ),
    ensures
        sound_dir(b.sectors(), h.inner.bpb, chain),
        ({
            let e = dir::locate(
                dir::held_bytes(m.sectors(), h.inner.bpb, chain),
                h.dir_entry_name@,
                true,
            ).unwrap().1;
            dir::locate(dir::held_bytes(b.sectors(), h.inner.bpb, chain), h.dir_entry_name@, true)
                matches Some((_, f)) && f == (EntryView {
                first_cluster: first,
                size: h.data@.len() as u32,
                ..e
            })
        }),
        sound_chain(b.sectors(), h.inner.bpb, clusters),
        same_on(m.sectors(), b.sectors(), h.inner.bpb, clusters),
{
    let bpb = h.inner.bpb;
    let name = h.dir_entry_name@;
    let size = h.data@.len() as u32;
    let raw = dir::held_bytes(m.sectors(), bpb, chain);
    flush::lemma_pointed(m, b, bpb, chain, name, first, size, r);
    flush::lemma_held_same(a, m, bpb, chain);
    let (at, e) = dir::locate(raw, name, true).unwrap();
    assert(dir::locate(raw, name, true) == Some((at, e)));
    let new = dir::pointed(raw, at, first, size);
    lemma_scan_positions(raw, 0, Seq::empty(), true);
    lemma_first_named_member(dir::scan(raw, 0, Seq::empty(), true), name);
    assert(0 <= at && at + 32 <= raw.len() && at % 32 == 0);
    lemma_slot_written(m.sectors(), bpb, chain, clusters, new, at);
    lemma_pointed_found(raw, 0, Seq::empty(), name, at, e, first, size);
}

/// What closing a file leaves behind, on the disk and in the handle.
pub open spec fn closed_well<D: BlockDevice>(
    b: &D,
    h: FatFileHandle,
    k: FatFileHandle,
    location: DirLocation,
) -> bool {
    &&& !k.dirty
    &&& !k.is_new
    &&& k.disk_size == h.data@.len()
    &&& k.dir_chain matches Some(chain) && chain@ == inode::dir_chain(
        b.sectors(),
        h.inner.bpb,
        location,
    )
    &&& reads_back(
        b.sectors(),
        h.inner,
        location,
        h.dir_entry_name@,
        k.first_cluster,
        h.data@,
    )
}

#[verifier::spinoff_prover]
#[verifier::rlimit(60)]
proof fn lemma_closed<D: BlockDevice>(
    a: &D,
    b: &D,
    h: FatFileHandle,
    k: FatFileHandle,
    location: DirLocation,
    errnos: Errnos,
    before: Seq<u8>,
    after: Seq<u8>,
)
    requires
        h.dirty,
        closable(a.sectors(), h, location),
        no_device_error(a, h, location),
        flush::close_outcome(a, b, h, k, errnos, before, after),
    ensures
        closed_well(b, h, k, location),
        after == before,
{
    let bpb = h.inner.bpb;
    let name = h.dir_entry_name@;
    let disk = a.sectors();
    let chain = inode::dir_chain(disk, bpb, location);
    assert(flush::flush_outcome(a, b, h, k, chain, errnos, before, after));
    let (m, end) = choose|m: D, end: ContentsEnd|
        {
            &&& #[trigger] flush::contents_outcome(
                a,
                &m,
                h.inner.bpb,
                h.first_cluster,
                h.data@,
                end,
            )
            &&& match end {
                ContentsEnd::Written(first) => flush::entry_outcome(
                    &m,
                    b,
                    h,
                    k,
                    chain,
                    first,
                    before,
                    after,
                ),
                ContentsEnd::NoCluster(_) => {
                    &&& m == *b
                    &&& k == h
                    &&& after == flush::contents_log(before, end, errnos)
                },
                ContentsEnd::NotWritten(first) => {
                    &&& m == *b
                    &&& k == (FatFileHandle { first_cluster: first, ..h })
                    &&& after == flush::contents_log(before, end, errnos)
                },
            }
        };
    lemma_tidy_dir(a, bpb, location);
    lemma_tidy(a, bpb, h.first_cluster);
    lemma_written(a, &m, bpb, h.first_cluster, h.data@, end);
    lemma_contents(a, bpb, h.first_cluster, h.data@, chain);
    let clusters = file_clusters(disk, bpb, h.first_cluster, h.data@);
    let first = end->Written_0;
    assert(flush::entry_outcome(&m, b, h, k, chain, first, before, after));
    let longer = k.dir_chain.unwrap()@;
    assert(0x20u8 & 0x10 == 0) by (bit_vector);
    if h.is_new {
        let size = h.data@.len() as u32;
        let slot = entry::entry_bytes(flush::handle_short_name(h).unwrap(), 0x20, first, size);
        let r = choose|r: Result<(), VfsError>|
            {
                &&& #[trigger] dir::add_outcome(&m, b, bpb, chain, longer, slot, r)
                &&& k == (FatFileHandle {
                    first_cluster: first,
                    dir_chain: k.dir_chain,
                    disk_size: if r is Ok {
                        size
                    } else {
                        h.disk_size
                    },
                    dirty: r is Err,
                    is_new: r is Err,
                    ..h
                })
                &&& after == table::search_log(
                    before,
                    chain.len() > 0 && r == Err::<(), VfsError>(VfsError::NoSpace),
                )
            };
        lemma_new_entry(a, &m, b, h, chain, longer, clusters, first, r);
    } else {
        let size = h.data@.len() as u32;
        let r = choose|r: Result<(), VfsError>| #[trigger]
            dir::point_outcome(&m, b, bpb, chain, name, first, size, r);
        lemma_changed_entry(a, &m, b, h, chain, clusters, first, r);
    }
    lemma_dir_raw(b.sectors(), bpb, location, longer);
    lemma_still_holds(m.sectors(), b.sectors(), bpb, clusters, h.data@);
    lemma_file_read(b.sectors(), bpb, clusters, first, h.data@);
}

/// What stood in a file when it was closed is what it is opened with again: its directory
/// finds it under its name, with its size, and its contents read back. This is so for new
/// files and for files that were there, whether they grow, stay as they are, or are emptied.
/// Closing the file again writes nothing.
pub proof fn law_file_read_after_write<D: BlockDevice>(
    a: &D,
    b: &D,
    c: &D,
    h: FatFileHandle,
    k: FatFileHandle,
    l: FatFileHandle,
    location: DirLocation,
    errnos: Errnos,
    before: Seq<u8>,
    after: Seq<u8>,
    again: Seq<u8>,
)
    requires
        h.dirty,
        closable(a.sectors(), h, location),
        no_device_error(a, h, location),
        flush::close_outcome(a, b, h, k, errnos, before, after),
        flush::close_outcome(b, c, k, l, errnos, after, again),
    ensures
        closed_well(b, h, k, location),
        after == before,
        *c == *b,
        l == k,
        again == after,
{
    lemma_closed(a, b, h, k, location, errnos, before, after);
}

/// A file that a directory did not know, once it was created there, written and closed, is
/// found there and reads as what was written.
pub proof fn law_created_file_reads_back<D: BlockDevice>(
    parent: FatDirInode,
    name: Seq<char>,
    a: &D,
    b: &D,
    opened: FatFileHandle,
    h: FatFileHandle,
    k: FatFileHandle,
    errnos: Errnos,
    before: Seq<u8>,
    after: Seq<u8>,
)
    requires
        inode::create_file_outcome(parent, Some(*a), name, Ok(opened)),
        opened.is_new,
        h == (FatFileHandle { data: h.data, pos: h.pos, dirty: true, ..opened }),
        well_laid(a.sectors(), parent.inner.bpb),
        tidy_dir(a.sectors(), parent.inner.bpb, parent.location),
        has_room(a.sectors(), parent.inner.bpb, 0, h.data@),
        plain_name(name),
        takes_name(inode::dir_raw(a.sectors(), parent.inner.bpb, parent.location), name),
        flush::contents_flushed(a.sectors(), parent.inner.bpb, 0, true, h.data@) matches Some(
            (disk, _),
        ) ==> dir_has_room(
            disk,
            parent.inner.bpb,
            inode::dir_chain(a.sectors(), parent.inner.bpb, parent.location),
        ),
        no_device_error(a, h, parent.location),
        flush::close_outcome(a, b, h, k, errnos, before, after),
    ensures
        closed_well(b, h, k, parent.location),
{
    let bpb = parent.inner.bpb;
    let disk = a.sectors();
    let chain = inode::dir_chain(disk, bpb, parent.location);
    assert(table::cluster_chain(disk, bpb, 0) =~= Seq::empty());
    assert(tidy(disk, bpb, 0));
    lemma_tidy_dir(a, bpb, parent.location);
    lemma_dir_raw(disk, bpb, parent.location, chain);
    lemma_closed(a, b, h, k, parent.location, errnos, before, after);
}

/// What the entry of a directory under one of the dot names says.
pub open spec fn dot_view(name: Seq<char>, cluster: u32) -> EntryView {
    EntryView { name, attributes: 0x10, first_cluster: cluster, size: 0, is_lfn: false }
}

proof fn lemma_dot_entry(short: Seq<u8>, n: int, cluster: u32)
    requires
        short.len() == 11,
        n == 1 || n == 2,
        forall|i: int| 0 <= i < 11 ==> #[trigger] short[i] == if i < n {
            0x2Eu8
        } else {
            0x20u8
        },
    ensures
        entry::entry_of(entry::entry_bytes(short, 0x10, cluster, 0)) == Some(
            dot_view(Seq::new(n as nat, |i: int| '.'), cluster),
        ),
{
    let buf = entry::entry_bytes(short, 0x10, cluster, 0);
    assert(0x10u8 & 0x08 == 0) by (bit_vector);
    assert forall|i: int| 0 <= i < 11 implies #[trigger] buf[i] == short[i] by {}
    assert(buf[n] == short[n]);
    assert(buf[8] == short[8]);
    lemma_text_len_is(buf, 0, 8, n);
    lemma_text_len_is(buf, 8, 11, 0);
    assert(buf[0] == short[0]);
    assert(entry::lower(0x2E) as char == '.');
    assert forall|i: int| 0 <= i < n implies entry::field_text(buf, 0, 8)[i] == '.' by {
        assert(buf[i] == short[i]);
    }
    assert(entry::dotted_name(buf) =~= Seq::new(n as nat, |i: int| '.'));
    assert(entry::entry_cluster(buf) == cluster) by {
        assert(buf[20] == bytes::byte_of(cluster, 2));
        assert(buf[21] == bytes::byte_of(cluster, 3));
        assert(buf[26] == bytes::byte_of(cluster, 0));
        assert(buf[27] == bytes::byte_of(cluster, 1));
    }
    assert(bytes::le32(buf, 28) == 0) by {
        assert(buf[28] == 0 && buf[29] == 0 && buf[30] == 0 && buf[31] == 0);
    }
}

/// What a new directory lists: itself as "." and its parent as "..".
pub open spec fn first_listing(own: u32, parent: u32) -> Seq<EntryView> {
    seq![dot_view(seq!['.'], own), dot_view(seq!['.', '.'], parent)]
}

proof fn lemma_first_listing(raw: Seq<u8>, own: u32, parent: u32)
    requires
        raw.len() >= 96,
        raw.take(64) == inode::first_entries(own, parent),
        raw[64] == 0,
    ensures
        dir::listing(raw) == first_listing(own, parent),
{
    let both = inode::first_entries(own, parent);
    let one = entry::entry_bytes(inode::dot_name(), 0x10, own, 0);
    let two = entry::entry_bytes(inode::dotdot_name(), 0x10, parent, 0);
    lemma_dot_entry(inode::dot_name(), 1, own);
    lemma_dot_entry(inode::dotdot_name(), 2, parent);
    assert(Seq::new(1, |i: int| '.') =~= seq!['.']);
    assert(Seq::new(2, |i: int| '.') =~= seq!['.', '.']);
    assert forall|i: int| 0 <= i < 64 implies #[trigger] raw[i] == both[i] by {
        assert(raw.take(64)[i] == raw[i]);
    }
    assert(raw.subrange(0, 32) =~= one);
    assert(raw.subrange(32, 64) =~= two);
    assert(one[11] == 0x10 && two[11] == 0x10);
    assert(one[0] == 0x2E && two[0] == 0x2E);
    assert(raw[0] == one[0] && raw[32] == two[0]);
    let empty = Seq::<(u8, Seq<char>)>::empty();
    assert(dir::scan(raw, 64, empty, true) =~= Seq::empty());
    let second = seq![(32int, dot_view(seq!['.', '.'], parent))];
    assert(dir::scan(raw, 32, empty, true) =~= second);
    assert(dir::scan(raw, 0, empty, true) =~= seq![(0int, dot_view(seq!['.'], own))] + second);
    assert(dir::listing(raw) =~= first_listing(own, parent));
}

/// A directory that has been laid out in a free cluster reads as its two first entries and
/// zeros, and other directories are as they were.
#[verifier::spinoff_prover]
#[verifier::rlimit(60)]
proof fn lemma_laid_out(
    disk: Seq<Seq<u8>>,
    bpb: FatBpb,
    chain: Seq<u32>,
    c: u32,
    parent: u32,
)
    requires
        well_laid(disk, bpb),
        sound_dir(disk, bpb, chain),
        2 <= c < bpb.end_mark(),
        table::in_table(bpb, c),
        table::entry_on_disk(disk, bpb, c),
        table::fat_get(disk, bpb, c) == 0,
        0 <= bpb.cluster_lba(c),
        bpb.cluster_lba(c) + bpb.sectors_per_cluster <= disk.len(),
    ensures
        ({
            let laid = inode::dir_laid(disk, bpb, c, parent);
            let raw = data::chain_bytes(laid, bpb, seq![c]);
            &&& laid.len() == disk.len()
            &&& well_laid(laid, bpb)
            &&& sound_dir(laid, bpb, chain)
            &&& dir::held_bytes(laid, bpb, chain) == dir::held_bytes(disk, bpb, chain)
            &&& linked_chain(laid, bpb, seq![c])
            &&& data::chain_on_disk(laid, bpb, seq![c])
            &&& apart(seq![c], chain)
            &&& raw.len() == flush::cluster_bytes(bpb)
            &&& raw.take(64) == inode::first_entries(c, parent)
            &&& forall|i: int| 64 <= i < raw.len() ==> raw[i] == 0
        }),
{
    let one = seq![c];
    let spc = bpb.sectors_per_cluster as int;
    let mark = bpb.end_mark();
    let marked = table::fat_set(disk, bpb, c, mark);
    let entries = inode::first_entries(c, parent);
    let start = bpb.cluster_lba(c);
    let laid = inode::dir_laid(disk, bpb, c, parent);
    if chain.len() > 0 {
        lemma_not_free(disk, bpb, chain, c);
        lemma_set_other(disk, bpb, c, mark, chain);
    }
    assert(apart(one, chain)) by {
        assert forall|x: int, y: int| 0 <= x < one.len() && 0 <= y < chain.len()
            implies #[trigger] one[x] != #[trigger] chain[y] by {
            assert(chain.contains(chain[y]));
        }
    }
    lemma_set_behind(disk, bpb, c, mark);
    assert(0 <= table::fat_lba(bpb, 0, c) < disk.len());
    table::law_fat_read_after_write(disk, bpb, c, mark, c, 0);
    assert(linked_chain(marked, bpb, one));
    assert(data::sectors_in(bpb, one) == spc);
    assert forall|s: int| 0 <= s < spc implies #[trigger] data::chain_lba(bpb, one, s) == start + s by {
        data::lemma_sector_index(bpb, one, 0, s);
    }
    assert(data::chain_lba(bpb, one, 0) == start);
    lemma_data_behind(disk, bpb, one, 0);
    assert(same_table(marked, laid, bpb));
    assert(sound_dir(marked, bpb, chain));
    assert(well_laid(marked, bpb));
    lemma_still_sound(marked, laid, bpb, chain);
    lemma_links_kept(marked, laid, bpb, one);
    assert forall|j: int| 0 <= j < place_count(bpb, chain) implies laid[#[trigger] place(
        bpb,
        chain,
        j,
    )] == disk[place(bpb, chain, j)] by {
        let lba = place(bpb, chain, j);
        lemma_place_behind(disk, bpb, chain, j);
        if start <= lba < start + spc {
            lemma_place_apart(disk, bpb, chain, one, j, lba - start);
            assert(data::chain_lba(bpb, one, lba - start) == lba);
        }
        assert(marked[lba] == disk[lba]);
    }
    lemma_held_kept(disk, laid, bpb, chain);
    let raw = data::chain_bytes(laid, bpb, one);
    assert forall|i: int| 0 <= i < raw.len() implies #[trigger] raw[i] == if i < 64 {
        entries[i]
    } else {
        0u8
    } by {
        let k = i / 512;
        assert(i == k * 512 + i % 512);
        assert(0 <= k < spc);
        let lba = data::chain_lba(bpb, one, k);
        assert(lba == start + k);
        assert(0 <= lba < disk.len());
        assert(laid[lba] == data::padded_sector(entries, k * 512));
    }
    assert(entries.len() == 64);
    assert(raw.take(64) =~= entries);
}

proof fn lemma_unnamed(list: Seq<(int, EntryView)>, name: Seq<char>)
    requires
        dir::first_named(list, name) is None,
    ensures
        forall|i: int| 0 <= i < list.len() ==> (#[trigger] list[i]).1.name != name,
    decreases list.len(),
{
    if list.len() > 0 {
        lemma_unnamed(list.skip(1), name);
        assert forall|i: int| 0 <= i < list.len() implies (#[trigger] list[i]).1.name != name by {
            if i > 0 {
                assert(list.skip(1)[i - 1] == list[i]);
            }
        }
    }
}

/// Whether a new directory with a name that its parent does not know can be created: the
/// parent can be relied on, and there are clusters for the directory and its entry.
pub open spec fn dir_creatable(disk: Seq<Seq<u8>>, parent: FatDirInode, name: Seq<char>) -> bool {
    let bpb = parent.inner.bpb;
    let chain = inode::dir_chain(disk, bpb, parent.location);
    &&& takes_name(dir::held_bytes(disk, bpb, chain), name)
    &&& flush::next_free(disk, bpb, 2) matches Some(c) && {
        &&& table::in_table(bpb, c)
        &&& dir_has_room(
            inode::dir_laid(disk, bpb, c, inode::dir_cluster(parent.location)),
            bpb,
            chain,
        )
    }
}

/// Whether creating a directory meets no error of the device: the device is reliable and
/// has all the sectors that are read and written.
pub open spec fn no_error_creating<D: BlockDevice>(device: &D, parent: FatDirInode) -> bool {
    let bpb = parent.inner.bpb;
    &&& device.reliable()
    &&& inode::dir_readable(device, bpb, parent.location)
    &&& forall|c: u32| !#[trigger] table::search_fails_at(device, bpb, 2, c)
    &&& flush::next_free(device.sectors(), bpb, 2) matches Some(c) ==> !inode::create_dir_blocked(
        device,
        parent,
        c,
    )
}

/// A directory that knows the name of a new one refuses it, and nothing is written. A new
/// directory is found in its parent under its name. It lists itself as "." and its parent
/// as "..", and nothing else: all its further slots are free.
#[verifier::spinoff_prover]
#[verifier::rlimit(60)]
pub proof fn law_new_directory<D: BlockDevice>(
    parent: FatDirInode,
    a: &D,
    b: &D,
    name: Seq<char>,
    before: Seq<u8>,
    after: Seq<u8>,
    r: Result<(), VfsError>,
)
    requires
        well_laid(a.sectors(), parent.inner.bpb),
        tidy_dir(a.sectors(), parent.inner.bpb, parent.location),
        plain_name(name),
        no_error_creating(a, parent),
        inode::create_dir_outcome(parent, a, b, name, before, after, r),
        inode::has_name(
            dir::listing(inode::dir_raw(a.sectors(), parent.inner.bpb, parent.location)),
            name,
        ) || dir_creatable(a.sectors(), parent, name),
    ensures
        ({
            let bpb = parent.inner.bpb;
            let own = flush::next_free(a.sectors(), bpb, 2).unwrap();
            let raw = inode::dir_raw(b.sectors(), bpb, DirLocation::ClusterChain(own));
            if inode::has_name(
                dir::listing(inode::dir_raw(a.sectors(), bpb, parent.location)),
                name,
            ) {
                r == Err::<(), VfsError>(VfsError::AlreadyExists) && *b == *a && after == before
            } else {
                &&& r is Ok
                &&& dir::locate(inode::dir_raw(b.sectors(), bpb, parent.location), name, true)
                    matches Some((_, e)) && {
                    &&& e == dot_view(name, own)
                    &&& inode::inode_of(parent.inner, e) == FatInode::Dir(
                        FatDirInode {
                            inner: parent.inner,
                            location: DirLocation::ClusterChain(own),
                        },
                    )
                }
                &&& dir::listing(raw) == first_listing(own, inode::dir_cluster(parent.location))
                &&& raw.len() == flush::cluster_bytes(bpb)
                &&& forall|i: int| 64 <= i < raw.len() ==> raw[i] == 0
                &&& after == inode::created_log(before, name, own)
            }
        }),
{
    let bpb = parent.inner.bpb;
    let disk = a.sectors();
    let up = inode::dir_cluster(parent.location);
    let chain = inode::dir_chain(disk, bpb, parent.location);
    lemma_tidy_dir(a, bpb, parent.location);
    lemma_dir_raw(disk, bpb, parent.location, chain);
    let raw = dir::held_bytes(disk, bpb, chain);
    if !inode::has_name(dir::listing(raw), name) {
        let c = flush::next_free(disk, bpb, 2).unwrap();
        assert(table::search_reaches(disk, bpb, 2, c) && table::fat_get(disk, bpb, c) == 0);
        assert(!table::search_fails_at(a, bpb, 2, c));
        lemma_writable_there(a, disk, bpb, c);
        let laid = inode::dir_laid(disk, bpb, c, up);
        lemma_laid_out(disk, bpb, chain, c, up);
        lemma_dir_raw(laid, bpb, parent.location, chain);
        lemma_growth_open(a, laid, bpb, chain);
        lemma_added_found(laid, bpb, chain, seq![c], name, 0x10, c, 0);
        let short = entry::short_name(vstd::utf8::encode_utf8(name)).unwrap();
        let (made, longer) = inode::dir_created(disk, parent, c, short).unwrap();
        assert(inode::dir_created(disk, parent, c, short) is Some);
        assert(r is Ok);
        assert(b.sectors() == made);
        lemma_dir_raw(made, bpb, parent.location, longer);
        lemma_linked_is_read(made, bpb, seq![c], table::MAX_CHAIN as nat);
        lemma_chain_kept(laid, made, bpb, seq![c]);
        let own_raw = inode::dir_raw(made, bpb, DirLocation::ClusterChain(c));
        assert(own_raw == data::chain_bytes(laid, bpb, seq![c]));
        lemma_first_listing(own_raw, c, up);
        assert(0x10u8 & 0x10 != 0) by (bit_vector);
    }
}

/// Marking the `k`-th entry of a directory as deleted takes exactly that entry out of
/// what the directory lists.
pub proof fn law_delete_removes_entry(
    raw: Seq<u8>,
    start: int,
    pending: Seq<(u8, Seq<char>)>,
    long: bool,
    k: int,
)
    requires
        start >= 0,
        0 <= k < dir::scan(raw, start, pending, long).len(),
    ensures
        ({
            let list = dir::scan(raw, start, pending, long);
            dir::scan(raw.update(list[k].0, 0xE5), start, pending, long) == list.remove(k)
        }),
    decreases raw.len() - start,
{
    let list = dir::scan(raw, start, pending, long);
    let at = list[k].0;
    let new = raw.update(at, 0xE5);
    lemma_scan_positions(raw, start, pending, long);
    let slot = raw.subrange(start, start + 32);
    let new_slot = new.subrange(start, start + 32);
    let next = dir::after_slot(slot, pending, long);
    let rest = dir::scan(raw, start + 32, next, long);
    lemma_scan_positions(raw, start + 32, next, long);
    let is_entry = !dir::is_long(slot) && entry::entry_of(slot) is Some;
    if is_entry && k == 0 {
        assert(at == start);
        assert(new_slot[0] == 0xE5);
        assert(new_slot[11] == slot[11]);
        assert(entry::entry_of(new_slot) is None);
        lemma_scan_same_behind(raw, new, start + 32, Seq::empty(), long);
        assert(list.remove(0) =~= rest);
    } else {
        let j = if is_entry {
            k - 1
        } else {
            k
        };
        assert(rest[j] == list[k]);
        assert(at >= start + 32);
        assert(new_slot =~= slot);
        law_delete_removes_entry(raw, start + 32, next, long, j);
        if is_entry {
            assert(seq![list[0]] + rest.remove(j) =~= list.remove(k));
        }
    }
}

proof fn lemma_scan_same_behind(
    a: Seq<u8>,
    b: Seq<u8>,
    at: int,
    pending: Seq<(u8, Seq<char>)>,
    long: bool,
)
    requires
        at >= 0,
        a.len() == b.len(),
        forall|i: int| at <= i < a.len() ==> a[i] == b[i],
    ensures
        dir::scan(a, at, pending, long) == dir::scan(b, at, pending, long),
    decreases a.len() - at,
{
    if !(at + 32 > a.len() || a[at] == 0) {
        let slot = a.subrange(at, at + 32);
        assert(slot =~= b.subrange(at, at + 32));
        let next = dir::after_slot(slot, pending, long);
        lemma_scan_same_behind(a, b, at + 32, next, long);
    }
}

} // verus!
