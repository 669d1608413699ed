//! Where a FAT volume lies on a disk, where its parts lie in it, and which bytes of the disk
//! a chain of clusters holds.
use vstd::prelude::*;

use crate::block::BlockDevice;
use crate::bytes;
use crate::fat32::bpb::{bpb_of, FatBpb, FatVariant};
use crate::fat32::data::{
    chain_bytes, min, padded_sector, room_for, run_bytes, run_exists, sectors_exist, sectors_in,
    write_run,
};
use crate::fat32::file::{after_write, read_len};
use crate::fat32::flush::{clusters_for, hint_after, next_free};
use crate::fat32::fs::{fat_partition, is_fat_type, mountable, volume_on};
use crate::fat32::inode::{file_bytes, file_readable};
use crate::fat32::table::{
    chain_readable, cluster_chain, entry_readable, entry_writable, fat_get, fat_lba, has_sector,
    search_reaches,
};

verus! {

/// What the boot sectors of both variants say in the same places.
pub open spec fn has_geometry(boot: Seq<u8>, bpb: FatBpb) -> bool {
    &&& boot.len() >= 512
    &&& bytes::has16(boot, 11, bpb.bytes_per_sector as int)
    &&& boot[13] == bpb.sectors_per_cluster
    &&& bytes::has16(boot, 14, bpb.reserved_sectors as int)
    &&& boot[16] == bpb.num_fats
    &&& bytes::has16(boot, 17, bpb.root_entry_count as int)
    &&& bpb.bytes_per_sector > 0
    &&& bpb.sectors_per_cluster > 0
    &&& bpb.bytes_per_cluster == bpb.bytes_per_sector * bpb.sectors_per_cluster
}

/// A boot sector with a 16-bit table size at byte 22 and a number of root entries at byte 17
/// is that of a FAT16 volume. Its root directory begins behind the last copy of the
/// table and has as many sectors as its entries of 32 bytes need, and no more; the data
/// begin behind it. The number of sectors is at byte 19, or, if that is 0, at byte 32.
#[verifier::rlimit(40)]
pub proof fn law_fat16_boot_sector(boot: Seq<u8>, base: u32, bpb: FatBpb, small: int, large: int)
    requires
        has_geometry(boot, bpb),
        bpb.variant == FatVariant::Fat16,
        bpb.base_sector == base,
        bytes::has16(boot, 22, bpb.fat_size_sectors as int),
        bpb.fat_size_sectors > 0,
        bpb.root_entry_count > 0,
        bytes::has16(boot, 19, small),
        bytes::has32(boot, 32, large),
        bpb.total_sectors == (if small != 0 {
            small
        } else {
            large
        }),
        bpb.root_cluster == 0,
        bpb.root_dir_start_sector == bpb.reserved_sectors + bpb.num_fats * bpb.fat_size_sectors,
        bpb.data_start_sector == bpb.root_dir_start_sector + bpb.root_dir_sectors,
        bpb.root_dir_sectors * bpb.bytes_per_sector >= bpb.root_entry_count * 32,
        (bpb.root_dir_sectors - 1) * bpb.bytes_per_sector < bpb.root_entry_count * 32,
    ensures
        bpb_of(boot, base) == Some(bpb),
{
    bytes::law_little_endian(boot, 11, bpb.bytes_per_sector as int);
    bytes::law_little_endian(boot, 14, bpb.reserved_sectors as int);
    bytes::law_little_endian(boot, 17, bpb.root_entry_count as int);
    bytes::law_little_endian(boot, 22, bpb.fat_size_sectors as int);
    bytes::law_little_endian(boot, 19, small);
    bytes::law_little_endian(boot, 32, large);
    let bps = bpb.bytes_per_sector as int;
    let need = bpb.root_entry_count * 32;
    let n = bpb.root_dir_sectors as int;
    let q = (need + bps - 1) / bps;
    vstd::arithmetic::div_mod::lemma_fundamental_div_mod(need + bps - 1, bps);
    assert(q == n) by (nonlinear_arith)
        requires
            bps > 0,
            need + bps - 1 == bps * q + (need + bps - 1) % bps,
            0 <= (need + bps - 1) % bps < bps,
            n * bps >= need,
            (n - 1) * bps < need,
    ;
}

/// A boot sector without the marks of FAT16 and with a 32-bit table size at byte 36 is that
/// of a FAT32 volume. Its data begin behind the last copy of the table, and the
/// first cluster of its root directory is at byte 44.
#[verifier::rlimit(40)]
pub proof fn law_fat32_boot_sector(boot: Seq<u8>, base: u32, bpb: FatBpb)
    requires
        has_geometry(boot, bpb),
        bpb.variant == FatVariant::Fat32,
        bpb.base_sector == base,
        bytes::has16(boot, 22, 0) || bpb.root_entry_count == 0,
        bytes::has32(boot, 36, bpb.fat_size_sectors as int),
        bpb.fat_size_sectors > 0,
        bytes::has32(boot, 32, bpb.total_sectors as int),
        bytes::has32(boot, 44, bpb.root_cluster as int),
        bpb.data_start_sector == bpb.reserved_sectors + bpb.num_fats * bpb.fat_size_sectors,
        bpb.root_dir_start_sector == 0,
        bpb.root_dir_sectors == 0,
    ensures
        bpb_of(boot, base) == Some(bpb),
{
    bytes::law_little_endian(boot, 11, bpb.bytes_per_sector as int);
    bytes::law_little_endian(boot, 14, bpb.reserved_sectors as int);
    bytes::law_little_endian(boot, 17, bpb.root_entry_count as int);
    bytes::law_little_endian(boot, 22, 0);
    bytes::law_little_endian(boot, 36, bpb.fat_size_sectors as int);
    bytes::law_little_endian(boot, 32, bpb.total_sectors as int);
    bytes::law_little_endian(boot, 44, bpb.root_cluster as int);
}

/// A boot sector is refused exactly if it is short, has no bytes in a sector or no sectors in
/// a cluster, or has a table size for neither variant.
pub proof fn law_boot_sector_refused(boot: Seq<u8>, base: u32)
    ensures
        bpb_of(boot, base) is None <==> {
            ||| boot.len() < 512
            ||| bytes::has16(boot, 11, 0)
            ||| boot[13] == 0
            ||| (bytes::has16(boot, 22, 0) || bytes::has16(boot, 17, 0)) && bytes::has32(boot, 36, 0)
        },
{
    if boot.len() >= 512 {
        bytes::law_read_is_there(boot, 11);
        bytes::law_read_is_there(boot, 17);
        bytes::law_read_is_there(boot, 22);
        bytes::law_read_is_there(boot, 36);
        bytes::law_little_endian(boot, 11, 0);
        bytes::law_little_endian(boot, 17, 0);
        bytes::law_little_endian(boot, 22, 0);
        bytes::law_little_endian(boot, 36, 0);
    }
}

/// The clusters fill the data area one behind the other: cluster 2 is where the data begin,
/// and each further one begins where the one before it ends.
pub proof fn law_clusters_in_a_row(bpb: FatBpb, c: u32)
    requires
        2 <= c < u32::MAX,
    ensures
        bpb.cluster_lba(2) == bpb.base_sector + bpb.data_start_sector,
        bpb.cluster_lba((c + 1) as u32) == bpb.cluster_lba(c) + bpb.sectors_per_cluster,
        bpb.cluster_lba(0) == bpb.cluster_lba(2) && bpb.cluster_lba(1) == bpb.cluster_lba(2),
{
    let spc = bpb.sectors_per_cluster as int;
    assert((c + 1 - 2) * spc == (c - 2) * spc + spc) by (nonlinear_arith);
    assert((2 - 2) * spc == 0) by (nonlinear_arith);
}

/// A chain holds its clusters one behind the other: byte `j` of cluster `k` is byte
/// `j` behind the `k` clusters before it, and it is byte `j % 512` of the sector `j / 512`
/// behind the first one of that cluster.
#[verifier::rlimit(40)]
pub proof fn law_bytes_of_chain(disk: Seq<Seq<u8>>, bpb: FatBpb, chain: Seq<u32>, k: int, j: int)
    requires
        0 <= k < chain.len(),
        0 <= j < bpb.sectors_per_cluster * 512,
    ensures
        chain_bytes(disk, bpb, chain).len() == chain.len() * (bpb.sectors_per_cluster * 512),
        chain_bytes(disk, bpb, chain)[k * (bpb.sectors_per_cluster * 512) + j]
            == disk[bpb.cluster_lba(chain[k]) + j / 512][j % 512],
{
    let spc = bpb.sectors_per_cluster as int;
    let at = k * (spc * 512) + j;
    let sector = j / 512;
    assert(chain.len() * spc * 512 == chain.len() * (spc * 512)) by (nonlinear_arith);
    assert(k * (spc * 512) == (k * spc) * 512) by (nonlinear_arith);
    assert(at / 512 == k * spc + sector && at % 512 == j % 512);
    assert(0 <= at < chain.len() * (spc * 512)) by (nonlinear_arith)
        requires
            at == k * (spc * 512) + j,
            0 <= k < chain.len(),
            0 <= j < spc * 512,
    ;
    assert(0 <= sector < spc);
    assert((k * spc + sector) / spc == k && (k * spc + sector) % spc == sector) by {
        vstd::arithmetic::div_mod::lemma_fundamental_div_mod_converse(
            k * spc + sector,
            spc,
            k,
            sector,
        );
    }
}

/// A run of sectors holds its sectors one behind the other.
pub proof fn law_bytes_of_run(disk: Seq<Seq<u8>>, start: int, count: int, k: int, j: int)
    requires
        0 <= k < count,
        0 <= j < 512,
    ensures
        run_bytes(disk, start, count).len() == 512 * count,
        run_bytes(disk, start, count)[512 * k + j] == disk[start + k][j],
{
}

/// What is written to a run of sectors is read back from it, with zeros behind it, and no
/// other sector has changed.
pub proof fn law_run_read_after_write(
    disk: Seq<Seq<u8>>,
    start: int,
    count: int,
    data: Seq<u8>,
    i: int,
    lba: int,
)
    requires
        0 <= start,
        0 <= count,
        start + count <= disk.len(),
        0 <= i < 512 * count,
    ensures
        ({
            let after = write_run(disk, start, count, data);
            &&& after.len() == disk.len()
            &&& run_bytes(after, start, count)[i] == if i < data.len() {
                data[i]
            } else {
                0
            }
            &&& 0 <= lba < disk.len() && (lba < start || lba >= start + count) ==> after[lba]
                == disk[lba]
        }),
{
    let k = i / 512;
    assert(0 <= k < count);
    let after = write_run(disk, start, count, data);
    assert(after[start + k] == padded_sector(data, k * 512));
}

/// A file takes as many clusters as it needs, and no more.
#[verifier::rlimit(40)]
pub proof fn law_clusters_needed(bpb: FatBpb, size: int)
    requires
        0 <= size,
        bpb.bytes_per_sector > 0,
        bpb.sectors_per_cluster > 0,
        bpb.bytes_per_cluster == bpb.bytes_per_sector * bpb.sectors_per_cluster,
    ensures
        ({
            let n = clusters_for(bpb, size);
            &&& n * (bpb.sectors_per_cluster * 512) >= size
            &&& n * bpb.bytes_per_cluster >= size
            &&& size == 0 ==> n == 0
            &&& bpb.bytes_per_sector == 512 && size > 0 ==> (n - 1) * bpb.bytes_per_cluster < size
        }),
{
    let spc = bpb.sectors_per_cluster as int;
    let bps = bpb.bytes_per_sector as int;
    assert(bps * spc > 0) by (nonlinear_arith)
        requires
            bps > 0,
            spc > 0,
    ;
    let len = min(bpb.bytes_per_cluster as int, spc * 512);
    let n = clusters_for(bpb, size);
    vstd::arithmetic::div_mod::lemma_fundamental_div_mod(size + len - 1, len);
    let wide = spc * 512;
    let said = bpb.bytes_per_cluster as int;
    let rem = (size + len - 1) % len;
    assert(n * wide >= size && n * said >= size && (size == 0 ==> n == 0) && (size > 0 ==> (n - 1)
        * len < size)) by (nonlinear_arith)
        requires
            len > 0,
            len <= wide,
            len <= said,
            0 <= size,
            size + len - 1 == len * n + rem,
            0 <= rem < len,
    ;
    assert(bps == 512 ==> len == said) by (nonlinear_arith)
        requires
            said == bps * spc,
            len == min(said, spc * 512),
    ;
}

/// Whether entry `k` of a partition table is a FAT partition that starts at sector `lba`: its
/// type, at byte 4 of its 16 bytes, is that of a FAT16 or FAT32 partition, and the number of
/// its first sector is at byte 8.
pub open spec fn is_fat_entry(boot: Seq<u8>, k: int, lba: u32) -> bool {
    let at = 446 + 16 * k;
    &&& boot[at + 4] == 4 || boot[at + 4] == 6 || boot[at + 4] == 14 || boot[at + 4] == 11
        || boot[at + 4] == 12
    &&& bytes::has32(boot, at + 8, lba as int)
}

/// Whether no entry of a partition table from `from` to below `to` is a FAT partition.
pub open spec fn no_fat_entry(boot: Seq<u8>, from: int, to: int) -> bool {
    forall|j: int, other: u32| from <= j < to ==> !#[trigger] is_fat_entry(boot, j, other)
}

/// The partition that is taken is the first of the four that is a FAT partition.
pub proof fn law_first_fat_partition(boot: Seq<u8>)
    requires
        boot.len() == 512,
    ensures
        match fat_partition(boot, 0) {
            Some(lba) => exists|k: int|
                0 <= k < 4 && #[trigger] is_fat_entry(boot, k, lba) && no_fat_entry(boot, 0, k),
            None => no_fat_entry(boot, 0, 4),
        },
{
    let k = lemma_partition(boot, 0);
    if let Some(lba) = fat_partition(boot, 0) {
        assert(is_fat_entry(boot, k, lba));
    }
}

proof fn lemma_partition(boot: Seq<u8>, from: int) -> (k: int)
    requires
        boot.len() == 512,
        0 <= from <= 4,
    ensures
        match fat_partition(boot, from) {
            Some(lba) => from <= k < 4 && is_fat_entry(boot, k, lba) && no_fat_entry(boot, from, k),
            None => no_fat_entry(boot, from, 4),
        },
    decreases 4 - from,
{
    let at = 446 + 16 * from;
    if from >= 4 {
        assert(no_fat_entry(boot, from, 4));
        from
    } else if is_fat_type(boot[at + 4]) {
        bytes::law_read_is_there(boot, at + 8);
        assert(fat_partition(boot, from) == Some(bytes::le32(boot, at + 8)));
        assert(no_fat_entry(boot, from, from));
        from
    } else {
        let k = lemma_partition(boot, from + 1);
        assert(fat_partition(boot, from) == fat_partition(boot, from + 1));
        let to = match fat_partition(boot, from) {
            Some(_) => k,
            None => 4,
        };
        assert forall|j: int, other: u32| from <= j < to implies !#[trigger] is_fat_entry(
            boot,
            j,
            other,
        ) by {
            assert(j == from || no_fat_entry(boot, from + 1, to));
        }
        assert(no_fat_entry(boot, from, to));
        k
    }
}

/// A disk holds a volume only if its first sector is signed at its last two bytes. Then it is
/// the volume that the first FAT partition starts with, if that sector is signed too;
/// without such a partition it is the one that the first sector itself describes, if that
/// sector starts with a jump.
pub proof fn law_volume_of_disk(disk: Seq<Seq<u8>>)
    requires
        disk.len() > 0,
        disk[0].len() == 512,
    ensures
        ({
            let boot = disk[0];
            let ends = |s: Seq<u8>| s[510] == 0x55 && s[511] == 0xAA;
            &&& !ends(boot) ==> volume_on(disk) is None
            &&& ends(boot) ==> match fat_partition(boot, 0) {
                Some(lba) => volume_on(disk) == if ends(disk[lba as int]) {
                    bpb_of(disk[lba as int], lba)
                } else {
                    None
                },
                None => volume_on(disk) == if boot[0] == 0xEB || boot[0] == 0xE9 {
                    bpb_of(boot, 0)
                } else {
                    None
                },
            }
        }),
{
}

/// A file reads as the first bytes of its chain, and as zeros where the chain is too short.
#[verifier::rlimit(40)]
pub proof fn law_file_contents(
    disk: Seq<Seq<u8>>,
    bpb: FatBpb,
    first: u32,
    size: u32,
    k: int,
    j: int,
)
    requires
        0 <= k,
        0 <= j < bpb.sectors_per_cluster * 512,
        k * (bpb.sectors_per_cluster * 512) + j < size,
    ensures
        ({
            let chain = cluster_chain(disk, bpb, first);
            let file = file_bytes(disk, bpb, first, size);
            &&& file.len() == size
            &&& file[k * (bpb.sectors_per_cluster * 512) + j] == if k < chain.len() {
                disk[bpb.cluster_lba(chain[k]) + j / 512][j % 512]
            } else {
                0
            }
        }),
{
    let chain = cluster_chain(disk, bpb, first);
    let len = bpb.sectors_per_cluster * 512;
    let at = k * len + j;
    assert(at >= 0) by (nonlinear_arith)
        requires
            at == k * len + j,
            0 <= k,
            0 <= j < len,
    ;
    if k < chain.len() {
        law_bytes_of_chain(disk, bpb, chain, k, j);
        assert(at < chain.len() * len) by (nonlinear_arith)
            requires
                at == k * len + j,
                0 <= k < chain.len(),
                0 <= j < len,
        ;
    } else {
        let spc = bpb.sectors_per_cluster as int;
        assert(chain.len() * spc * 512 <= at) by (nonlinear_arith)
            requires
                at == k * (spc * 512) + j,
                k >= chain.len(),
                0 <= j,
                0 <= spc,
        ;
    }
}

/// A read gives what is left of the file from its position on, as far as the buffer has
/// room. Reads one after the other give the file without a gap.
pub proof fn law_reads_in_a_row(len: int, pos: int, room: int)
    requires
        0 <= pos,
        0 <= len,
        0 <= room,
    ensures
        ({
            let n = read_len(len, pos, room);
            &&& 0 <= n <= room
            &&& n > 0 ==> pos + n <= len
            &&& n < room ==> pos + n >= len
        }),
{
}

/// What is written at a position of a file is read back from there. In front of it and behind
/// it the file is as it was, and a gap is filled with zeros.
pub proof fn law_write_in_memory(contents: Seq<u8>, pos: int, buf: Seq<u8>, i: int)
    requires
        0 <= pos,
    ensures
        ({
            let after = after_write(contents, pos, buf);
            &&& after.len() >= contents.len()
            &&& after.len() >= pos + buf.len()
            &&& after.len() == contents.len() || after.len() == pos + buf.len()
            &&& after.subrange(pos, pos + buf.len()) == buf
            &&& 0 <= i < contents.len() && (i < pos || i >= pos + buf.len()) ==> after[i]
                == contents[i]
            &&& contents.len() <= i < pos ==> after[i] == 0
        }),
{
    assert(after_write(contents, pos, buf).subrange(pos, pos + buf.len()) =~= buf);
}

/// A write to a chain puts down as much as fits between its offset and the end of the chain.
pub proof fn law_room_in_chain(bpb: FatBpb, chain: Seq<u32>, offset: int, len: int)
    requires
        0 <= offset,
        0 <= len,
    ensures
        ({
            let n = room_for(bpb, chain, offset, len);
            let all = chain.len() * (bpb.sectors_per_cluster * 512);
            &&& 0 <= n <= len
            &&& n > 0 ==> offset + n <= all
            &&& n < len ==> offset + n >= all
        }),
{
    let spc = bpb.sectors_per_cluster as int;
    assert(chain.len() * spc * 512 == chain.len() * (spc * 512)) by (nonlinear_arith);
}

/// The cluster that a growing file takes is free, and it is the first free one behind the
/// file's last cluster, going around to 2 at the top.
pub proof fn law_growth_takes_next(disk: Seq<Seq<u8>>, bpb: FatBpb, last: u32, k: u32)
    requires
        last < bpb.top_cluster(),
    ensures
        match next_free(disk, bpb, hint_after(last)) {
            Some(c) => {
                &&& fat_get(disk, bpb, c) == 0
                &&& 2 <= c <= bpb.top_cluster()
                &&& fat_get(disk, bpb, k) == 0 && last < k <= bpb.top_cluster() && k >= 2 ==> last
                    < c <= k
                &&& fat_get(disk, bpb, k) == 0 && 2 <= k <= last ==> c > last || c <= k
            },
            None => 2 <= k <= bpb.top_cluster() ==> fat_get(disk, bpb, k) != 0,
        },
{
    if 2 <= k <= bpb.top_cluster() && fat_get(disk, bpb, k) == 0 {
        lemma_search_exists(disk, bpb, hint_after(last), k);
    }
}

/// If a cluster is free, the search reaches a free one.
proof fn lemma_search_exists(disk: Seq<Seq<u8>>, bpb: FatBpb, hint: u32, k: u32)
    requires
        2 <= hint <= bpb.top_cluster(),
        2 <= k <= bpb.top_cluster(),
        fat_get(disk, bpb, k) == 0,
    ensures
        next_free(disk, bpb, hint) is Some,
{
    if exists|f: u32| hint <= f <= bpb.top_cluster() && #[trigger] fat_get(disk, bpb, f) == 0 {
        let f = choose|f: u32|
            hint <= f <= bpb.top_cluster() && #[trigger] fat_get(disk, bpb, f) == 0;
        let c = lemma_lowest_free(disk, bpb, hint, f);
        assert(search_reaches(disk, bpb, hint, c));
    } else {
        let c = lemma_lowest_free(disk, bpb, 2, k);
        assert(search_reaches(disk, bpb, hint, c));
    }
}

proof fn lemma_lowest_free(disk: Seq<Seq<u8>>, bpb: FatBpb, low: u32, k: u32) -> (c: u32)
    requires
        low <= k,
        fat_get(disk, bpb, k) == 0,
    ensures
        low <= c <= k,
        fat_get(disk, bpb, c) == 0,
        forall|j: u32| low <= j < c ==> #[trigger] fat_get(disk, bpb, j) != 0,
    decreases k - low,
{
    if exists|j: u32| low <= j < k && #[trigger] fat_get(disk, bpb, j) == 0 {
        let j = choose|j: u32| low <= j < k && #[trigger] fat_get(disk, bpb, j) == 0;
        lemma_lowest_free(disk, bpb, low, j)
    } else {
        k
    }
}

/// The table entry of a cluster can be read exactly if the device has sectors of 512 bytes
/// and the one that holds the entry in the first copy, and written exactly if it has the
/// one in every copy.
pub proof fn law_entry_within_reach<D: BlockDevice>(device: &D, bpb: FatBpb, c: u32)
    ensures
        ({
            let byte = if bpb.variant == FatVariant::Fat16 {
                2 * c
            } else {
                4 * c
            };
            let first = bpb.base_sector + bpb.reserved_sectors + byte / 512;
            &&& entry_readable(device, bpb, c) <==> device.sector_bytes() == 512 && first
                < device.sectors().len()
            &&& bpb.num_fats >= 1 && device.sector_bytes() == 512 && first + (bpb.num_fats - 1)
                * bpb.fat_size_sectors < device.sectors().len() ==> entry_writable(device, bpb, c)
            &&& bpb.num_fats >= 1 && entry_writable(device, bpb, c) ==> device.sector_bytes() == 512
                && first < device.sectors().len()
        }),
{
    let size = bpb.fat_size_sectors as int;
    let n = bpb.num_fats as int;
    assert(0 * size == 0);
    if n >= 1 && entry_writable(device, bpb, c) {
        assert(has_sector(device, fat_lba(bpb, 0, c)));
    }
    let top = fat_lba(bpb, n - 1, c);
    if n >= 1 && device.sector_bytes() == 512 && top < device.sectors().len() {
        assert forall|copy: int| 0 <= copy < n implies has_sector(
            device,
            #[trigger] fat_lba(bpb, copy, c),
        ) by {
            assert(0 <= copy * size <= (n - 1) * size) by (nonlinear_arith)
                requires
                    0 <= copy < n,
                    0 <= size,
            ;
        }
    }
}

/// A file can be read if the entries of its clusters can be and the device has all their
/// sectors.
pub proof fn law_file_within_reach<D: BlockDevice>(
    device: &D,
    bpb: FatBpb,
    first: u32,
    size: u32,
)
    requires
        device.sector_bytes() == 512,
        bpb.sectors_per_cluster > 0,
        ({
            let chain = cluster_chain(device.sectors(), bpb, first);
            forall|k: int|
                0 <= k < chain.len() ==> entry_readable(device, bpb, #[trigger] chain[k]) && 0
                    <= bpb.cluster_lba(chain[k]) && bpb.cluster_lba(chain[k])
                    + bpb.sectors_per_cluster <= device.sectors().len()
        }),
    ensures
        file_readable(device, bpb, first, size),
        chain_readable(device, bpb, cluster_chain(device.sectors(), bpb, first)),
{
    let chain = cluster_chain(device.sectors(), bpb, first);
    let spc = bpb.sectors_per_cluster as int;
    let all = sectors_in(bpb, chain);
    assert forall|k: int| 0 <= k < all implies has_sector(
        device,
        #[trigger] crate::fat32::data::chain_lba(bpb, chain, k),
    ) by {
        crate::fat32::data::lemma_index_bound(k, spc, chain.len() as int);
        let c = chain[k / spc];
        assert(entry_readable(device, bpb, c));
    }
    assert(sectors_exist(device, bpb, chain, all));
    let n = min(size as int, all * 512);
    assert(all >= 0) by (nonlinear_arith)
        requires
            all == chain.len() * spc,
            spc > 0,
    ;
    assert((n + 511) / 512 <= all);
}

/// A run of sectors can be read exactly if it is empty or the device, with sectors of 512
/// bytes, has all of them.
pub proof fn law_run_within_reach<D: BlockDevice>(device: &D, start: int, count: int)
    requires
        0 <= start,
        0 < count,
    ensures
        run_exists(device, start, count) <==> device.sector_bytes() == 512 && start + count
            <= device.sectors().len(),
        run_exists(device, start, 0),
{
}

/// A volume can be looked for on a device with sectors of 512 bytes that has the first one
/// and, if that is signed and names a FAT partition, the first one of that.
pub proof fn law_mount_within_reach<D: BlockDevice>(device: &D)
    requires
        device.sector_bytes() == 512,
        device.sectors().len() > 0,
    ensures
        fat_partition(device.sectors()[0], 0) is None ==> mountable(device),
        (fat_partition(device.sectors()[0], 0) matches Some(lba) && lba < device.sectors().len())
            ==> mountable(device),
        mountable(device) && device.sectors()[0][510] == 0x55 && device.sectors()[0][511] == 0xAA
            ==> (fat_partition(device.sectors()[0], 0) matches Some(lba) ==> lba
            < device.sectors().len()),
{
}

} // verus!
