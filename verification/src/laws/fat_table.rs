//! The allocation table as bytes on the disk, chains and the search for free clusters.
use vstd::prelude::*;

use crate::bytes;
use crate::fat32::bpb::{FatBpb, FatVariant};
use crate::fat32::table::{
    chain_of, cluster_chain, entry_on_disk, entry_patch, fat_get, fat_lba, fat_offset, fat_set,
    in_table, lemma_chain_links, lemma_chain_members, lemma_entry_fits, lemma_set_copies, none_free,
    put_entry, search_reaches, MAX_CHAIN,
};

verus! {

/// What byte `i` of a copy of the table is, counted over all its sectors.
pub open spec fn table_byte(disk: Seq<Seq<u8>>, bpb: FatBpb, copy: int, i: int) -> u8 {
    disk[bpb.base_sector + bpb.reserved_sectors + copy * bpb.fat_size_sectors + i / 512][i % 512]
}

/// The bytes of a copy of the table from `at` on.
pub open spec fn table_bytes(disk: Seq<Seq<u8>>, bpb: FatBpb, copy: int, at: int, n: nat) -> Seq<u8> {
    Seq::new(n, |i: int| table_byte(disk, bpb, copy, at + i))
}

/// The entry of cluster `c` is the little-endian number that the table holds at byte `2 * c`
/// on FAT16, and at byte `4 * c`, without its top four bits, on FAT32.
#[verifier::rlimit(40)]
pub proof fn law_entry_is_little_endian(disk: Seq<Seq<u8>>, bpb: FatBpb, c: u32, v: int, top: int)
    requires
        0 <= fat_lba(bpb, 0, c) < disk.len(),
        disk[fat_lba(bpb, 0, c)].len() == 512,
        0 <= top < 16,
    ensures
        bpb.variant == FatVariant::Fat16 && bytes::has16(
            table_bytes(disk, bpb, 0, 2 * c, 2),
            0,
            v,
        ) ==> fat_get(disk, bpb, c) == v,
        bpb.variant == FatVariant::Fat32 && 0 <= v < 0x1000_0000 && bytes::has32(
            table_bytes(disk, bpb, 0, 4 * c, 4),
            0,
            v + top * 0x1000_0000,
        ) ==> fat_get(disk, bpb, c) == v,
{
    lemma_entry_fits(bpb, c);
    lemma_entry_place(disk, bpb, 0, c);
    let at = fat_offset(bpb, c);
    let sector = disk[fat_lba(bpb, 0, c)];
    if bpb.variant == FatVariant::Fat16 {
        let b = table_bytes(disk, bpb, 0, 2 * c, 2);
        assert(b[0] == sector[at] && b[1] == sector[at + 1]);
    } else {
        let b = table_bytes(disk, bpb, 0, 4 * c, 4);
        assert(b[0] == sector[at] && b[1] == sector[at + 1] && b[2] == sector[at + 2] && b[3]
            == sector[at + 3]);
        if 0 <= v < 0x1000_0000 && bytes::has32(b, 0, v + top * 0x1000_0000) {
            bytes::law_little_endian(b, 0, v + top * 0x1000_0000);
            assert(bytes::le32(sector, at) == bytes::le32(b, 0));
            assert((v + top * 0x1000_0000) % 0x1000_0000 == v);
        }
    }
}

/// Once an entry has been written, every copy of the table holds it as a little-endian
/// number at byte `2 * c` on FAT16, and at byte `4 * c` on FAT32, where the top four bits
/// are those that were there.
#[verifier::rlimit(40)]
pub proof fn law_entry_written_little_endian(
    disk: Seq<Seq<u8>>,
    bpb: FatBpb,
    c: u32,
    v: u32,
    copy: int,
)
    requires
        entry_on_disk(disk, bpb, c),
        in_table(bpb, c),
        0 <= copy < bpb.num_fats,
    ensures
        ({
            let after = fat_set(disk, bpb, c, v);
            match bpb.variant {
                FatVariant::Fat16 => v < 0x1_0000 ==> bytes::has16(
                    table_bytes(after, bpb, copy, 2 * c, 2),
                    0,
                    v as int,
                ),
                FatVariant::Fat32 => v < 0x1000_0000 ==> bytes::has32(
                    table_bytes(after, bpb, copy, 4 * c, 4),
                    0,
                    v + table_byte(disk, bpb, copy, 4 * c + 3) as int / 16 * 0x1000_0000,
                ),
            }
        }),
{
    let after = fat_set(disk, bpb, c, v);
    lemma_set_copies(disk, bpb, c, v, bpb.num_fats as nat);
    let lba = fat_lba(bpb, copy, c);
    let sector = disk[lba];
    assert(after[lba] == put_entry(bpb, sector, c, v));
    lemma_entry_fits(bpb, c);
    lemma_patched(bpb, sector, c, v);
    lemma_entry_place(after, bpb, copy, c);
    lemma_entry_place(disk, bpb, copy, c);
    let at = fat_offset(bpb, c);
    let put = after[lba];
    match bpb.variant {
        FatVariant::Fat16 => {
            let b = table_bytes(after, bpb, copy, 2 * c, 2);
            assert(b[0] == put[at] && b[1] == put[at + 1]);
        },
        FatVariant::Fat32 => {
            let b = table_bytes(after, bpb, copy, 4 * c, 4);
            assert(b[0] == put[at] && b[1] == put[at + 1] && b[2] == put[at + 2] && b[3] == put[at
                + 3]);
            let kept = sector[at + 3] as int / 16;
            assert(table_byte(disk, bpb, copy, 4 * c + 3) == sector[at + 3]);
            if v < 0x1000_0000 {
                lemma_with_top(v, kept);
            }
        },
    }
}

/// Where the bytes of an entry stand.
proof fn lemma_entry_place(disk: Seq<Seq<u8>>, bpb: FatBpb, copy: int, c: u32)
    ensures
        ({
            let sector = disk[fat_lba(bpb, copy, c)];
            let at = fat_offset(bpb, c);
            match bpb.variant {
                FatVariant::Fat16 => {
                    &&& table_byte(disk, bpb, copy, 2 * c) == sector[at]
                    &&& table_byte(disk, bpb, copy, 2 * c + 1) == sector[at + 1]
                },
                FatVariant::Fat32 => {
                    &&& table_byte(disk, bpb, copy, 4 * c) == sector[at]
                    &&& table_byte(disk, bpb, copy, 4 * c + 1) == sector[at + 1]
                    &&& table_byte(disk, bpb, copy, 4 * c + 2) == sector[at + 2]
                    &&& table_byte(disk, bpb, copy, 4 * c + 3) == sector[at + 3]
                },
            }
        }),
{
    lemma_entry_fits(bpb, c);
    let two = 2 * c;
    let four = 4 * c;
    assert((two + 1) / 512 == two / 512 && (two + 1) % 512 == two % 512 + 1);
    assert((four + 1) / 512 == four / 512 && (four + 1) % 512 == four % 512 + 1);
    assert((four + 2) / 512 == four / 512 && (four + 2) % 512 == four % 512 + 2);
    assert((four + 3) / 512 == four / 512 && (four + 3) % 512 == four % 512 + 3);
}

#[verifier::rlimit(40)]
proof fn lemma_patched(bpb: FatBpb, sector: Seq<u8>, c: u32, v: u32)
    requires
        sector.len() == 512,
    ensures
        ({
            let at = fat_offset(bpb, c);
            let put = put_entry(bpb, sector, c, v);
            match bpb.variant {
                FatVariant::Fat16 => {
                    &&& put[at] == v % 256
                    &&& put[at + 1] == v as int / 256 % 256
                },
                FatVariant::Fat32 => {
                    &&& put[at] == v % 256
                    &&& put[at + 1] == v as int / 256 % 256
                    &&& put[at + 2] == v as int / 65536 % 256
                    &&& put[at + 3] == sector[at + 3] as int / 16 * 16 + v as int / 16777216 % 16
                },
            }
        }),
{
    lemma_entry_fits(bpb, c);
    let patch = entry_patch(bpb, sector, c, v);
    let at = fat_offset(bpb, c);
    assert(bytes::byte_of(v, 3) % 16 == v as int / 16777216 % 16);
    assert(forall|k: int|
        0 <= k < patch.len() ==> #[trigger] put_entry(bpb, sector, c, v)[at + k] == patch[k]);
    assert(put_entry(bpb, sector, c, v)[at + 0] == patch[0]);
}

#[verifier::rlimit(40)]
proof fn lemma_with_top(v: u32, top: int)
    requires
        v < 0x1000_0000,
        0 <= top < 16,
    ensures
        ({
            let w = v + top * 0x1000_0000;
            &&& 0 <= w < 0x1_0000_0000
            &&& w % 256 == v as int % 256
            &&& w / 256 % 256 == v as int / 256 % 256
            &&& w / 65536 % 256 == v as int / 65536 % 256
            &&& w / 16777216 == top * 16 + v as int / 16777216 % 16
        }),
{
    let x = v as int;
    let w = x + top * 0x1000_0000;
    assert(w / 256 == x / 256 + top * 0x10_0000);
    assert(w / 65536 == x / 65536 + top * 0x1000);
    assert(w / 16777216 == x / 16777216 + top * 16);
    assert(x / 16777216 < 16);
}

/// A cluster chain starts at its first cluster and goes, from each cluster, to the one that
/// the table names there. It ends where the table names none: below 2, or from 0xFFF8
/// (FAT16) or 0x0FFFFFF8 (FAT32) on, unless it is as long as a chain can be.
pub proof fn law_chain_is_followed(disk: Seq<Seq<u8>>, bpb: FatBpb, start: u32, i: int)
    requires
        0 <= i < cluster_chain(disk, bpb, start).len(),
    ensures
        ({
            let chain = cluster_chain(disk, bpb, start);
            let end = if bpb.variant == FatVariant::Fat16 {
                0xFFF8int
            } else {
                0x0FFF_FFF8
            };
            let next = fat_get(disk, bpb, chain[i]);
            &&& chain[0] == start
            &&& 2 <= chain[i] < end
            &&& i + 1 < chain.len() ==> chain[i + 1] == next
            &&& i + 1 == chain.len() ==> next < 2 || next >= end || chain.len() == 0x10_0001
        }),
{
    let chain = cluster_chain(disk, bpb, start);
    lemma_chain_members(disk, bpb, start, MAX_CHAIN as nat);
    if i + 1 < chain.len() {
        lemma_chain_links(disk, bpb, start, MAX_CHAIN as nat, i);
    } else {
        lemma_chain_end(disk, bpb, start, MAX_CHAIN as nat);
    }
}

/// A cluster number from which a chain can start has one.
pub proof fn law_chain_starts(disk: Seq<Seq<u8>>, bpb: FatBpb, start: u32)
    ensures
        cluster_chain(disk, bpb, start).len() > 0 <==> 2 <= start < (if bpb.variant
            == FatVariant::Fat16 {
            0xFFF8int
        } else {
            0x0FFF_FFF8
        }),
{
}

proof fn lemma_chain_end(disk: Seq<Seq<u8>>, bpb: FatBpb, start: u32, limit: nat)
    requires
        chain_of(disk, bpb, start, limit).len() > 0,
    ensures
        ({
            let chain = chain_of(disk, bpb, start, limit);
            let next = fat_get(disk, bpb, chain.last());
            chain.len() == limit || next < 2 || next >= bpb.end_mark()
        }),
    decreases limit,
{
    let next = fat_get(disk, bpb, start);
    let rest = chain_of(disk, bpb, next, (limit - 1) as nat);
    if rest.len() > 0 {
        lemma_chain_end(disk, bpb, next, (limit - 1) as nat);
        assert(chain_of(disk, bpb, start, limit).last() == rest.last());
    } else {
        assert(chain_of(disk, bpb, start, limit) =~= seq![start]);
    }
}

/// The search for a free cluster goes up from the hint to the last cluster and then from 2
/// up to the hint: the one that is taken is free, and no free one comes before it in that
/// order. Where no cluster is found, none from 2 to 0xFFF0 (FAT16) or 0x0FFFFFF0 (FAT32) is
/// free.
pub proof fn law_first_free_is_taken(disk: Seq<Seq<u8>>, bpb: FatBpb, hint: u32, c: u32, k: u32)
    requires
        2 <= hint <= bpb.top_cluster(),
        2 <= k <= (if bpb.variant == FatVariant::Fat16 {
            0xFFF0int
        } else {
            0x0FFF_FFF0
        }),
        fat_get(disk, bpb, k) == 0,
    ensures
        search_reaches(disk, bpb, hint, c) && fat_get(disk, bpb, c) == 0 ==> {
            &&& 2 <= c <= (if bpb.variant == FatVariant::Fat16 {
                0xFFF0int
            } else {
                0x0FFF_FFF0
            })
            &&& c >= hint && k >= hint ==> c <= k
            &&& c < hint && k < hint ==> c <= k
            &&& c < hint ==> k < hint
        },
        !none_free(disk, bpb, hint),
{
}

} // verus!
