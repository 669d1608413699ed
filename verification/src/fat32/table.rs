//! The file allocation table: entries, free clusters and cluster chains.
use vstd::prelude::*;

use crate::block::BlockDevice;
use crate::bytes;
use crate::fat32::bpb::{FatBpb, FatVariant};
use crate::serial;
use crate::vfs::VfsError;

verus! {

/// The longest chain that is followed, so that a cycle in a damaged table ends.
pub const MAX_CHAIN: usize = 0x10_0001;

/// Whether a 512-byte transfer of sector `lba` is a valid request.
pub open spec fn has_sector<D: BlockDevice>(device: &D, lba: int) -> bool {
    device.sector_bytes() == 512 && 0 <= lba < device.sectors().len()
}

/// Whether two states of a device differ at most in what the sectors hold.
pub open spec fn same_geometry<D: BlockDevice>(a: &D, b: &D) -> bool {
    &&& a.wf() == b.wf()
    &&& a.reliable() == b.reliable()
    &&& a.sector_bytes() == b.sector_bytes()
    &&& a.label() == b.label()
    &&& a.sectors().len() == b.sectors().len()
}

/// Reads one 512-byte sector.
pub fn read_block<D: BlockDevice>(device: &D, lba: u64) -> (r: Result<[u8; 512], VfsError>)
    requires
        device.wf(),
    ensures
        match r {
            Ok(buf) => has_sector(device, lba as int) && buf@ == device.sectors()[lba as int],
            Err(e) => e == VfsError::IoError && (device.reliable() ==> !has_sector(
                device,
                lba as int,
            )),
        },
{
    let mut buf: [u8; 512] = [0u8; 512];
    match device.read_sector(lba, &mut buf) {
        Ok(_) => Ok(buf),
        Err(_) => Err(VfsError::IoError),
    }
}

/// Writes one 512-byte sector.
pub fn write_block<D: BlockDevice>(device: &mut D, lba: u64, buf: &[u8; 512]) -> (r: Result<
    (),
    VfsError,
>)
    requires
        old(device).wf(),
    ensures
        same_geometry(old(device), final(device)),
        match r {
            Ok(_) => has_sector(old(device), lba as int) && final(device).sectors() == old(
                device,
            ).sectors().update(lba as int, buf@),
            Err(e) => e == VfsError::IoError && (old(device).reliable() ==> !has_sector(
                old(device),
                lba as int,
            )) && forall|i: int|
                0 <= i < old(device).sectors().len() && i != lba ==> final(device).sectors()[i]
                    == old(device).sectors()[i],
        },
{
    match device.write_sector(lba, buf) {
        Ok(_) => Ok(()),
        Err(_) => Err(VfsError::IoError),
    }
}

/// Where in the table the entry of a cluster starts.
pub open spec fn fat_byte(variant: FatVariant, cluster: u32) -> int {
    match variant {
        FatVariant::Fat16 => cluster * 2,
        FatVariant::Fat32 => cluster * 4,
    }
}

/// The LBA of the sector of table copy `copy` that holds the entry of a cluster.
pub open spec fn fat_lba(bpb: FatBpb, copy: int, cluster: u32) -> int {
    bpb.base_sector + bpb.reserved_sectors + copy * bpb.fat_size_sectors + fat_byte(
        bpb.variant,
        cluster,
    ) / 512
}

/// Where in its sector the entry of a cluster starts.
pub open spec fn fat_offset(bpb: FatBpb, cluster: u32) -> int {
    fat_byte(bpb.variant, cluster) % 512
}

/// A table entry never crosses the end of its sector.
pub proof fn lemma_entry_fits(bpb: FatBpb, cluster: u32)
    ensures
        0 <= fat_offset(bpb, cluster),
        fat_offset(bpb, cluster) + (if bpb.variant == FatVariant::Fat16 {
            2int
        } else {
            4
        }) <= 512,
{
    assert(forall|x: int| x >= 0 ==> #[trigger] (x * 2 % 512) % 2 == 0 && (x * 2 % 512) < 512);
    assert(forall|x: int| x >= 0 ==> #[trigger] (x * 4 % 512) % 4 == 0 && (x * 4 % 512) < 512);
}

/// The entry of a cluster in the sector that holds it.
pub open spec fn entry_in(bpb: FatBpb, sector: Seq<u8>, cluster: u32) -> u32 {
    match bpb.variant {
        FatVariant::Fat16 => bytes::le16(sector, fat_offset(bpb, cluster)) as u32,
        FatVariant::Fat32 => bytes::le32(sector, fat_offset(bpb, cluster)) % 0x1000_0000,
    }
}

/// The bytes of an entry with the given value. The top four bits of a FAT32 entry are
/// reserved and stay as they are.
pub open spec fn entry_patch(bpb: FatBpb, sector: Seq<u8>, cluster: u32, value: u32) -> Seq<u8> {
    match bpb.variant {
        FatVariant::Fat16 => seq![bytes::byte_of(value, 0), bytes::byte_of(value, 1)],
        FatVariant::Fat32 => seq![
            bytes::byte_of(value, 0),
            bytes::byte_of(value, 1),
            bytes::byte_of(value, 2),
            (sector[fat_offset(bpb, cluster) + 3] / 16 * 16 + bytes::byte_of(value, 3) % 16) as u8,
        ],
    }
}

/// What an entry reads as once `value` has been written to it.
pub open spec fn stored(bpb: FatBpb, value: u32) -> u32 {
    match bpb.variant {
        FatVariant::Fat16 => value % 0x1_0000,
        FatVariant::Fat32 => value % 0x1000_0000,
    }
}

/// A table sector with the entry of a cluster replaced.
pub open spec fn put_entry(bpb: FatBpb, sector: Seq<u8>, cluster: u32, value: u32) -> Seq<u8> {
    bytes::overlay(sector, fat_offset(bpb, cluster), entry_patch(bpb, sector, cluster, value))
}

/// The table entry of a cluster, from the first copy.
pub open spec fn fat_get(disk: Seq<Seq<u8>>, bpb: FatBpb, cluster: u32) -> u32 {
    entry_in(bpb, disk[fat_lba(bpb, 0, cluster)], cluster)
}

/// The disk with the entry of a cluster set in the first `copies` copies of the table.
pub open spec fn fat_set_copies(
    disk: Seq<Seq<u8>>,
    bpb: FatBpb,
    cluster: u32,
    value: u32,
    copies: nat,
) -> Seq<Seq<u8>>
    decreases copies,
{
    if copies == 0 {
        disk
    } else {
        let d = fat_set_copies(disk, bpb, cluster, value, (copies - 1) as nat);
        let lba = fat_lba(bpb, copies - 1, cluster);
        d.update(lba, put_entry(bpb, d[lba], cluster, value))
    }
}

/// The disk with the entry of a cluster set in every copy of the table.
pub open spec fn fat_set(disk: Seq<Seq<u8>>, bpb: FatBpb, cluster: u32, value: u32) -> Seq<
    Seq<u8>,
> {
    fat_set_copies(disk, bpb, cluster, value, bpb.num_fats as nat)
}

/// Whether the entry of a cluster can be read.
pub open spec fn entry_readable<D: BlockDevice>(device: &D, bpb: FatBpb, cluster: u32) -> bool {
    has_sector(device, fat_lba(bpb, 0, cluster))
}

/// Whether the entry of a cluster can be written in every copy of the table.
pub open spec fn entry_writable<D: BlockDevice>(device: &D, bpb: FatBpb, cluster: u32) -> bool {
    forall|copy: int|
        0 <= copy < bpb.num_fats ==> has_sector(device, #[trigger] fat_lba(bpb, copy, cluster))
}

/// Whether sector `i` holds the entry of a cluster in some copy of the table.
pub open spec fn holds_entry(bpb: FatBpb, cluster: u32, i: int) -> bool {
    exists|copy: int| 0 <= copy < bpb.num_fats && i == #[trigger] fat_lba(bpb, copy, cluster)
}

/// Whether two disks differ at most in the sectors that hold the entries of some clusters.
pub open spec fn kept_but(
    a: Seq<Seq<u8>>,
    b: Seq<Seq<u8>>,
    bpb: FatBpb,
    clusters: Seq<u32>,
) -> bool {
    &&& a.len() == b.len()
    &&& forall|i: int|
        0 <= i < a.len() && (forall|j: int|
            0 <= j < clusters.len() ==> !holds_entry(bpb, #[trigger] clusters[j], i))
            ==> #[trigger] b[i] == a[i]
}

/// Setting an entry changes no sector but those that hold it.
pub proof fn lemma_set_kept(
    disk: Seq<Seq<u8>>,
    bpb: FatBpb,
    cluster: u32,
    value: u32,
    copies: nat,
    clusters: Seq<u32>,
    j: int,
)
    requires
        copies <= bpb.num_fats,
        forall|copy: int|
            0 <= copy < copies ==> 0 <= #[trigger] fat_lba(bpb, copy, cluster) < disk.len(),
        0 <= j < clusters.len(),
        clusters[j] == cluster,
    ensures
        kept_but(disk, fat_set_copies(disk, bpb, cluster, value, copies), bpb, clusters),
    decreases copies,
{
    if copies > 0 {
        lemma_set_kept(disk, bpb, cluster, value, (copies - 1) as nat, clusters, j);
        let lba = fat_lba(bpb, copies - 1, cluster);
        let d = fat_set_copies(disk, bpb, cluster, value, copies);
        assert forall|i: int|
            0 <= i < disk.len() && (forall|k: int|
                0 <= k < clusters.len() ==> !holds_entry(bpb, #[trigger] clusters[k], i))
            implies #[trigger] d[i] == disk[i] by {
            assert(!holds_entry(bpb, clusters[j], i));
            assert(i != lba);
        }
    }
}

/// Read the FAT entry for a given cluster.
pub fn read_fat_entry<D: BlockDevice>(device: &D, bpb: &FatBpb, cluster: u32) -> (r: Result<
    u32,
    VfsError,
>)
    requires
        device.wf(),
    ensures
        match r {
            Ok(value) => entry_readable(device, *bpb, cluster) && value == fat_get(
                device.sectors(),
                *bpb,
                cluster,
            ),
            Err(e) => e == VfsError::IoError && (device.reliable() ==> !entry_readable(
                device,
                *bpb,
                cluster,
            )),
        },
{
    proof {
        lemma_entry_fits(*bpb, cluster);
    }
    let entry_byte: u64 = match bpb.variant {
        FatVariant::Fat16 => cluster as u64 * 2,
        FatVariant::Fat32 => cluster as u64 * 4,
    };
    let fat_sector: u64 = bpb.base_sector as u64 + bpb.reserved_sectors as u64 + entry_byte / 512;
    let at: usize = (entry_byte % 512) as usize;
    assert(fat_sector == fat_lba(*bpb, 0, cluster));
    let buf: [u8; 512] = match read_block(device, fat_sector) {
        Ok(buf) => buf,
        Err(e) => {
            return Err(e);
        },
    };
    match bpb.variant {
        FatVariant::Fat16 => Ok(bytes::read_u16(&buf, at) as u32),
        FatVariant::Fat32 => Ok(bytes::read_u32(&buf, at) % 0x1000_0000),
    }
}

/// Replaces the entry of a cluster in the sector that holds it.
fn patch_entry(buf: &mut [u8; 512], bpb: &FatBpb, cluster: u32, value: u32, at: usize)
    requires
        at == fat_offset(*bpb, cluster),
    ensures
        final(buf)@ == put_entry(*bpb, old(buf)@, cluster, value),
{
    proof {
        lemma_entry_fits(*bpb, cluster);
    }
    let ghost sector = buf@;
    match bpb.variant {
        FatVariant::Fat16 => {
            buf[at] = (value % 0x100) as u8;
            buf[at + 1] = (value / 0x100 % 0x100) as u8;
        },
        FatVariant::Fat32 => {
            let kept: u8 = buf[at + 3] / 16 * 16;
            let top: u8 = (value / 0x100_0000) as u8 % 16;
            buf[at] = (value % 0x100) as u8;
            buf[at + 1] = (value / 0x100 % 0x100) as u8;
            buf[at + 2] = (value / 0x1_0000 % 0x100) as u8;
            buf[at + 3] = kept + top;
        },
    }
    assert(buf@ =~= put_entry(*bpb, sector, cluster, value));
}

/// Write a FAT entry for a given cluster. Mirrors to all FAT copies.
pub fn write_fat_entry<D: BlockDevice>(
    device: &mut D,
    bpb: &FatBpb,
    cluster: u32,
    value: u32,
) -> (r: Result<(), VfsError>)
    requires
        old(device).wf(),
    ensures
        same_geometry(old(device), final(device)),
        match r {
            Ok(_) => entry_writable(old(device), *bpb, cluster) && final(device).sectors()
                == fat_set(old(device).sectors(), *bpb, cluster, value),
            Err(e) => {
                &&& e == VfsError::IoError
                &&& old(device).reliable() ==> !entry_writable(old(device), *bpb, cluster)
                &&& kept_but(
                    old(device).sectors(),
                    final(device).sectors(),
                    *bpb,
                    seq![cluster],
                )
            },
        },
{
    let mut fat_copy: u64 = 0;
    let ghost before = *device;
    while fat_copy < bpb.num_fats as u64
        invariant
            fat_copy <= bpb.num_fats,
            before == *old(device),
            before.wf(),
            same_geometry(&before, device),
            device.sectors() == fat_set_copies(
                before.sectors(),
                *bpb,
                cluster,
                value,
                fat_copy as nat,
            ),
            forall|copy: int|
                0 <= copy < fat_copy ==> has_sector(
                    &before,
                    #[trigger] fat_lba(*bpb, copy, cluster),
                ),
        decreases bpb.num_fats - fat_copy,
    {
        assert(0 <= fat_copy * bpb.fat_size_sectors <= 0xFF * 0xFFFF_FFFF) by (nonlinear_arith)
            requires
                0 <= fat_copy <= 0xFF,
                0 <= bpb.fat_size_sectors <= 0xFFFF_FFFF,
        ;
        let fat_start: u64 = bpb.base_sector as u64 + bpb.reserved_sectors as u64 + fat_copy
            * bpb.fat_size_sectors as u64;
        let entry_byte: u64 = match bpb.variant {
            FatVariant::Fat16 => cluster as u64 * 2,
            FatVariant::Fat32 => cluster as u64 * 4,
        };
        let fat_sector: u64 = fat_start + entry_byte / 512;
        let at: usize = (entry_byte % 512) as usize;
        proof {
            lemma_entry_fits(*bpb, cluster);
        }
        assert(fat_sector == fat_lba(*bpb, fat_copy as int, cluster));
        proof {
            assert(seq![cluster][0] == cluster);
            lemma_set_kept(
                before.sectors(),
                *bpb,
                cluster,
                value,
                fat_copy as nat,
                seq![cluster],
                0,
            );
        }
        let mut buf: [u8; 512] = match read_block(device, fat_sector) {
            Ok(buf) => buf,
            Err(e) => {
                return Err(e);
            },
        };
        patch_entry(&mut buf, bpb, cluster, value, at);
        match write_block(device, fat_sector, &buf) {
            Ok(_) => {},
            Err(e) => {
                assert forall|i: int|
                    0 <= i < before.sectors().len() && (forall|j: int|
                        0 <= j < 1 ==> !holds_entry(*bpb, #[trigger] seq![cluster][j], i))
                    implies #[trigger] device.sectors()[i] == before.sectors()[i] by {
                    assert(!holds_entry(*bpb, seq![cluster][0], i));
                    assert(i != fat_lba(*bpb, fat_copy as int, cluster));
                }
                return Err(e);
            },
        }
        fat_copy = fat_copy + 1;
    }
    Ok(())
}

/// Whether a search from `hint` up to the top and then from 2 up to `hint` comes to
/// cluster `c` without having met a free one.
pub open spec fn search_reaches(disk: Seq<Seq<u8>>, bpb: FatBpb, hint: u32, c: u32) -> bool {
    ||| hint <= c <= bpb.top_cluster() && forall|k: u32|
        hint <= k < c ==> #[trigger] fat_get(disk, bpb, k) != 0
    ||| {
        &&& 2 <= c < hint
        &&& forall|k: u32| hint <= k <= bpb.top_cluster() ==> #[trigger] fat_get(disk, bpb, k) != 0
        &&& forall|k: u32| 2 <= k < c ==> #[trigger] fat_get(disk, bpb, k) != 0
    }
}

/// Whether no cluster that the search considers is free.
pub open spec fn none_free(disk: Seq<Seq<u8>>, bpb: FatBpb, hint: u32) -> bool {
    forall|k: u32|
        hint <= k <= bpb.top_cluster() || 2 <= k < hint ==> #[trigger] fat_get(disk, bpb, k) != 0
}

/// Whether the search has to give up at cluster `c`: its entry is out of reach, or it
/// is the free one and its entry cannot be written.
pub open spec fn search_fails_at<D: BlockDevice>(device: &D, bpb: FatBpb, hint: u32, c: u32) -> bool {
    &&& search_reaches(device.sectors(), bpb, hint, c)
    &&& !entry_readable(device, bpb, c) || (fat_get(device.sectors(), bpb, c) == 0
        && !entry_writable(device, bpb, c))
}

/// Whether a failed search has changed nothing, or at most the sectors that hold the entry
/// of the free cluster that it found.
pub open spec fn search_kept(a: Seq<Seq<u8>>, b: Seq<Seq<u8>>, bpb: FatBpb, hint: u32) -> bool {
    a == b || exists|c: u32|
        {
            &&& #[trigger] search_reaches(a, bpb, hint, c)
            &&& fat_get(a, bpb, c) == 0
            &&& kept_but(a, b, bpb, seq![c])
        }
}

/// The console once a search for a free cluster has ended: it is noted if there was none.
pub open spec fn search_log(out: Seq<u8>, full: bool) -> Seq<u8> {
    if full {
        out + serial::text("[FAT] No free clusters"@) + serial::line_end()
    } else {
        out
    }
}

/// Allocate a new cluster: the first free one (value 0) from `hint` on, wrapping around
/// to 2. Its entry becomes an end-of-chain mark.
pub fn allocate_cluster<D: BlockDevice>(
    device: &mut D,
    bpb: &FatBpb,
    hint: u32,
    out: &mut Vec<u8>,
) -> (r: Result<u32, VfsError>)
    requires
        old(device).wf(),
    ensures
        same_geometry(old(device), final(device)),
        final(out)@ == search_log(old(out)@, r == Err::<u32, VfsError>(VfsError::NoSpace)),
        match r {
            Ok(c) => {
                &&& search_reaches(old(device).sectors(), *bpb, hint, c)
                &&& fat_get(old(device).sectors(), *bpb, c) == 0
                &&& entry_readable(old(device), *bpb, c)
                &&& entry_writable(old(device), *bpb, c)
                &&& final(device).sectors() == fat_set(
                    old(device).sectors(),
                    *bpb,
                    c,
                    bpb.end_mark(),
                )
            },
            Err(VfsError::NoSpace) => none_free(old(device).sectors(), *bpb, hint)
                && final(device).sectors() == old(device).sectors(),
            Err(e) => {
                &&& e == VfsError::IoError
                &&& old(device).reliable() ==> exists|c: u32|
                    search_fails_at(old(device), *bpb, hint, c)
                &&& search_kept(
                    old(device).sectors(),
                    final(device).sectors(),
                    *bpb,
                    hint,
                )
            },
        },
{
    let max: u32 = bpb.max_cluster();
    let eoc: u32 = bpb.eoc();
    let mut cluster: u32 = hint;
    while cluster <= max
        invariant
            hint <= cluster,
            cluster > hint ==> cluster <= max + 1,
            max == bpb.top_cluster(),
            eoc == bpb.end_mark(),
            device.wf(),
            *device == *old(device),
            out@ == old(out)@,
            forall|k: u32|
                hint <= k < cluster ==> #[trigger] fat_get(device.sectors(), *bpb, k) != 0,
        decreases max + 1 - cluster,
    {
        match read_fat_entry(device, bpb, cluster) {
            Ok(val) => {
                if val == 0 {
                    assert(search_reaches(old(device).sectors(), *bpb, hint, cluster));
                    return match write_fat_entry(device, bpb, cluster, eoc) {
                        Ok(_) => Ok(cluster),
                        Err(e) => {
                            assert(old(device).reliable() ==> search_fails_at(
                                old(device),
                                *bpb,
                                hint,
                                cluster,
                            ));
                            Err(e)
                        },
                    };
                }
            },
            Err(e) => {
                assert(old(device).reliable() ==> search_fails_at(
                    old(device),
                    *bpb,
                    hint,
                    cluster,
                ));
                return Err(e);
            },
        }
        cluster = cluster + 1;
    }
    let mut cluster: u32 = 2;
    while cluster < hint
        invariant
            2 <= cluster,
            cluster > 2 ==> cluster <= hint,
            max == bpb.top_cluster(),
            eoc == bpb.end_mark(),
            device.wf(),
            *device == *old(device),
            out@ == old(out)@,
            forall|k: u32|
                hint <= k <= max ==> #[trigger] fat_get(device.sectors(), *bpb, k) != 0,
            forall|k: u32|
                2 <= k < cluster ==> #[trigger] fat_get(device.sectors(), *bpb, k) != 0 || k
                    >= hint,
        decreases hint - cluster,
    {
        match read_fat_entry(device, bpb, cluster) {
            Ok(val) => {
                if val == 0 {
                    assert(search_reaches(old(device).sectors(), *bpb, hint, cluster));
                    return match write_fat_entry(device, bpb, cluster, eoc) {
                        Ok(_) => Ok(cluster),
                        Err(e) => {
                            assert(old(device).reliable() ==> search_fails_at(
                                old(device),
                                *bpb,
                                hint,
                                cluster,
                            ));
                            Err(e)
                        },
                    };
                }
            },
            Err(e) => {
                assert(old(device).reliable() ==> search_fails_at(
                    old(device),
                    *bpb,
                    hint,
                    cluster,
                ));
                return Err(e);
            },
        }
        cluster = cluster + 1;
    }
    serial::write_str_nl(out, "[FAT] No free clusters");
    Err(VfsError::NoSpace)
}

/// The clusters of a chain, at most `limit` of them.
pub open spec fn chain_of(disk: Seq<Seq<u8>>, bpb: FatBpb, start: u32, limit: nat) -> Seq<u32>
    decreases limit,
{
    if limit == 0 || start < 2 || start >= bpb.end_mark() {
        Seq::empty()
    } else {
        seq![start] + chain_of(disk, bpb, fat_get(disk, bpb, start), (limit - 1) as nat)
    }
}

/// The cluster chain that starts at a cluster.
pub open spec fn cluster_chain(disk: Seq<Seq<u8>>, bpb: FatBpb, start: u32) -> Seq<u32> {
    chain_of(disk, bpb, start, MAX_CHAIN as nat)
}

/// Whether the table entry of every cluster of a chain can be read.
pub open spec fn chain_readable<D: BlockDevice>(device: &D, bpb: FatBpb, chain: Seq<u32>) -> bool {
    forall|i: int| 0 <= i < chain.len() ==> entry_readable(device, bpb, #[trigger] chain[i])
}

/// Every cluster of a chain is a data cluster.
pub proof fn lemma_chain_members(disk: Seq<Seq<u8>>, bpb: FatBpb, start: u32, limit: nat)
    ensures
        chain_of(disk, bpb, start, limit).len() <= limit,
        forall|i: int|
            0 <= i < chain_of(disk, bpb, start, limit).len() ==> 2 <= #[trigger] chain_of(
                disk,
                bpb,
                start,
                limit,
            )[i] < bpb.end_mark(),
    decreases limit,
{
    if !(limit == 0 || start < 2 || start >= bpb.end_mark()) {
        lemma_chain_members(disk, bpb, fat_get(disk, bpb, start), (limit - 1) as nat);
        let rest = chain_of(disk, bpb, fat_get(disk, bpb, start), (limit - 1) as nat);
        assert forall|i: int| 0 <= i < chain_of(disk, bpb, start, limit).len() implies 2
            <= #[trigger] chain_of(disk, bpb, start, limit)[i] < bpb.end_mark() by {
            if i > 0 {
                assert(chain_of(disk, bpb, start, limit)[i] == rest[i - 1]);
            }
        }
    }
}

/// Follow the FAT cluster chain from a starting cluster.
pub fn read_cluster_chain<D: BlockDevice>(device: &D, bpb: &FatBpb, start_cluster: u32) -> (r:
    Result<Vec<u32>, VfsError>)
    requires
        device.wf(),
    ensures
        match r {
            Ok(chain) => {
                &&& chain@ == cluster_chain(device.sectors(), *bpb, start_cluster)
                &&& chain_readable(device, *bpb, chain@)
                &&& forall|i: int| 0 <= i < chain@.len() ==> 2 <= #[trigger] chain@[i] < bpb.end_mark()
            },
            Err(e) => {
                &&& e == VfsError::IoError
                &&& 2 <= start_cluster < bpb.end_mark()
                &&& device.reliable() ==> !chain_readable(
                    device,
                    *bpb,
                    cluster_chain(device.sectors(), *bpb, start_cluster),
                )
            },
        },
{
    let mut chain: Vec<u32> = Vec::new();
    let mut cluster: u32 = start_cluster;
    let eoc: u32 = bpb.eoc();
    let ghost whole = cluster_chain(device.sectors(), *bpb, start_cluster);
    proof {
        lemma_chain_members(device.sectors(), *bpb, start_cluster, MAX_CHAIN as nat);
        assert(whole =~= chain@ + chain_of(device.sectors(), *bpb, cluster, MAX_CHAIN as nat));
    }
    while cluster >= 2 && cluster < eoc && chain.len() < MAX_CHAIN
        invariant
            eoc == bpb.end_mark(),
            device.wf(),
            chain@.len() <= MAX_CHAIN,
            whole == cluster_chain(device.sectors(), *bpb, start_cluster),
            whole == chain@ + chain_of(
                device.sectors(),
                *bpb,
                cluster,
                (MAX_CHAIN - chain@.len()) as nat,
            ),
            chain_readable(device, *bpb, chain@),
            chain@.len() == 0 ==> cluster == start_cluster,
            chain@.len() > 0 ==> 2 <= start_cluster < eoc,
        decreases MAX_CHAIN - chain@.len(),
    {
        let ghost rest = chain_of(
            device.sectors(),
            *bpb,
            fat_get(device.sectors(), *bpb, cluster),
            (MAX_CHAIN - chain@.len() - 1) as nat,
        );
        let ghost prefix = chain@;
        chain.push(cluster);
        assert(whole =~= chain@ + rest);
        cluster = match read_fat_entry(device, bpb, cluster) {
            Ok(next) => next,
            Err(e) => {
                assert(whole[prefix.len() as int] == cluster);
                return Err(e);
            },
        };
    }
    assert(chain@ =~= whole);
    Ok(chain)
}

/// The disk with the entries of all the clusters of a chain set to `value`, one after
/// the other.
pub open spec fn fat_fill(disk: Seq<Seq<u8>>, bpb: FatBpb, chain: Seq<u32>, value: u32) -> Seq<
    Seq<u8>,
>
    decreases chain.len(),
{
    if chain.len() == 0 {
        disk
    } else {
        fat_set(fat_fill(disk, bpb, chain.drop_last(), value), bpb, chain.last(), value)
    }
}

/// Whether the table entry of every cluster of a chain can be written.
pub open spec fn chain_writable<D: BlockDevice>(device: &D, bpb: FatBpb, chain: Seq<u32>) -> bool {
    forall|i: int| 0 <= i < chain.len() ==> entry_writable(device, bpb, #[trigger] chain[i])
}

/// What is kept but for one cluster's entry is kept but for those of any clusters among
/// which it is.
pub proof fn lemma_kept_wider(
    a: Seq<Seq<u8>>,
    b: Seq<Seq<u8>>,
    bpb: FatBpb,
    one: Seq<u32>,
    clusters: Seq<u32>,
    j: int,
)
    requires
        one.len() == 1,
        0 <= j < clusters.len(),
        one[0] == clusters[j],
        kept_but(a, b, bpb, one),
    ensures
        kept_but(a, b, bpb, clusters),
{
    assert forall|i: int|
        0 <= i < a.len() && (forall|k: int|
            0 <= k < clusters.len() ==> !holds_entry(bpb, #[trigger] clusters[k], i))
        implies #[trigger] b[i] == a[i] by {
        assert(!holds_entry(bpb, clusters[j], i));
        assert forall|k: int| 0 <= k < one.len() implies !holds_entry(bpb, #[trigger] one[k], i) by {}
    }
}

/// Free a cluster chain. Zeros each FAT entry.
pub fn free_cluster_chain<D: BlockDevice>(device: &mut D, bpb: &FatBpb, start_cluster: u32) -> (r:
    Result<(), VfsError>)
    requires
        old(device).wf(),
    ensures
        same_geometry(old(device), final(device)),
        ({
            let chain = cluster_chain(old(device).sectors(), *bpb, start_cluster);
            match r {
                Ok(_) => chain_readable(old(device), *bpb, chain) && chain_writable(
                    old(device),
                    *bpb,
                    chain,
                ) && final(device).sectors() == fat_fill(old(device).sectors(), *bpb, chain, 0),
                Err(e) => {
                    &&& e == VfsError::IoError
                    &&& old(device).reliable() ==> !(chain_readable(old(device), *bpb, chain)
                        && chain_writable(old(device), *bpb, chain))
                    &&& kept_but(old(device).sectors(), final(device).sectors(), *bpb, chain)
                },
            }
        }),
{
    let chain: Vec<u32> = match read_cluster_chain(device, bpb, start_cluster) {
        Ok(chain) => chain,
        Err(e) => {
            return Err(e);
        },
    };
    let ghost before = *device;
    let mut i: usize = 0;
    while i < chain.len()
        invariant
            i <= chain@.len(),
            before == *old(device),
            before.wf(),
            same_geometry(&before, device),
            device.sectors() == fat_fill(before.sectors(), *bpb, chain@.take(i as int), 0),
            forall|k: int| 0 <= k < i ==> entry_writable(&before, *bpb, #[trigger] chain@[k]),
            chain@ == cluster_chain(before.sectors(), *bpb, start_cluster),
            kept_but(before.sectors(), device.sectors(), *bpb, chain@),
        decreases chain@.len() - i,
    {
        let ghost now = device.sectors();
        match write_fat_entry(device, bpb, chain[i], 0) {
            Ok(_) => {},
            Err(e) => {
                assert(before.reliable() ==> !entry_writable(&before, *bpb, chain@[i as int]));
                proof {
                    lemma_kept_wider(
                        now,
                        device.sectors(),
                        *bpb,
                        seq![chain@[i as int]],
                        chain@,
                        i as int,
                    );
                }
                return Err(e);
            },
        }
        proof {
            lemma_set_kept(
                now,
                *bpb,
                chain@[i as int],
                0,
                bpb.num_fats as nat,
                chain@,
                i as int,
            );
        }
        assert(chain@.take(i + 1).drop_last() =~= chain@.take(i as int));
        i = i + 1;
    }
    assert(chain@.take(i as int) =~= chain@);
    Ok(())
}

/// Append a cluster to the end of a chain.
pub fn extend_chain<D: BlockDevice>(
    device: &mut D,
    bpb: &FatBpb,
    last_cluster: u32,
    new_cluster: u32,
) -> (r: Result<(), VfsError>)
    requires
        old(device).wf(),
    ensures
        same_geometry(old(device), final(device)),
        match r {
            Ok(_) => {
                &&& entry_writable(old(device), *bpb, last_cluster)
                &&& entry_writable(old(device), *bpb, new_cluster)
                &&& final(device).sectors() == fat_set(
                    fat_set(old(device).sectors(), *bpb, last_cluster, new_cluster),
                    *bpb,
                    new_cluster,
                    bpb.end_mark(),
                )
            },
            Err(e) => {
                &&& e == VfsError::IoError
                &&& old(device).reliable() ==> !(entry_writable(old(device), *bpb, last_cluster)
                    && entry_writable(old(device), *bpb, new_cluster))
                &&& kept_but(
                    old(device).sectors(),
                    final(device).sectors(),
                    *bpb,
                    seq![last_cluster, new_cluster],
                )
            },
        },
{
    let eoc: u32 = bpb.eoc();
    let ghost both = seq![last_cluster, new_cluster];
    let ghost before = device.sectors();
    match write_fat_entry(device, bpb, last_cluster, new_cluster) {
        Ok(_) => {},
        Err(e) => {
            proof {
                lemma_kept_wider(before, device.sectors(), *bpb, seq![last_cluster], both, 0);
            }
            return Err(e);
        },
    }
    let ghost middle = device.sectors();
    proof {
        lemma_set_kept(
            before,
            *bpb,
            last_cluster,
            new_cluster,
            bpb.num_fats as nat,
            both,
            0,
        );
    }
    match write_fat_entry(device, bpb, new_cluster, eoc) {
        Ok(_) => Ok(()),
        Err(e) => {
            proof {
                lemma_kept_wider(middle, device.sectors(), *bpb, seq![new_cluster], both, 1);
            }
            Err(e)
        },
    }
}

/// How many of the clusters from 2 up to `end`, without `end`, are free.
pub open spec fn free_below(disk: Seq<Seq<u8>>, bpb: FatBpb, end: int) -> int
    decreases end,
{
    if end <= 2 {
        0
    } else {
        free_below(disk, bpb, end - 1) + if fat_get(disk, bpb, (end - 1) as u32) == 0 {
            1int
        } else {
            0
        }
    }
}

/// Count free clusters on the filesystem.
pub fn count_free_clusters<D: BlockDevice>(device: &D, bpb: &FatBpb) -> (r: Result<u64, VfsError>)
    requires
        device.wf(),
    ensures
        match r {
            Ok(free) => {
                &&& forall|c: u32|
                    2 <= c <= bpb.top_cluster() ==> #[trigger] entry_readable(device, *bpb, c)
                &&& free == free_below(device.sectors(), *bpb, bpb.top_cluster() + 1)
            },
            Err(e) => e == VfsError::IoError && (device.reliable() ==> exists|c: u32|
                2 <= c <= bpb.top_cluster() && !#[trigger] entry_readable(device, *bpb, c)),
        },
{
    let max: u32 = bpb.max_cluster();
    let mut free: u64 = 0;
    let mut cluster: u32 = 2;
    while cluster <= max
        invariant
            2 <= cluster <= max + 1,
            max == bpb.top_cluster(),
            device.wf(),
            forall|c: u32| 2 <= c < cluster ==> #[trigger] entry_readable(device, *bpb, c),
            free == free_below(device.sectors(), *bpb, cluster as int),
            free <= cluster,
        decreases max + 1 - cluster,
    {
        match read_fat_entry(device, bpb, cluster) {
            Ok(val) => {
                if val == 0 {
                    free = free + 1;
                }
            },
            Err(e) => {
                return Err(e);
            },
        }
        cluster = cluster + 1;
    }
    Ok(free)
}

/// Whether the entry of a cluster lies inside its copy of the table.
pub open spec fn in_table(bpb: FatBpb, cluster: u32) -> bool {
    fat_byte(bpb.variant, cluster) / 512 < bpb.fat_size_sectors
}

proof fn lemma_copies_apart(bpb: FatBpb, j: int, k: int, c: u32, d: u32)
    requires
        0 <= j < k,
        in_table(bpb, c),
    ensures
        fat_lba(bpb, j, c) < fat_lba(bpb, k, d),
{
    assert(j * bpb.fat_size_sectors + bpb.fat_size_sectors <= k * bpb.fat_size_sectors)
        by (nonlinear_arith)
        requires
            j + 1 <= k,
            0 <= bpb.fat_size_sectors,
    ;
}

/// Whether the sectors that hold the entry of a cluster, one in each copy of the table, are
/// sectors of 512 bytes on a disk.
pub open spec fn entry_on_disk(disk: Seq<Seq<u8>>, bpb: FatBpb, cluster: u32) -> bool {
    forall|copy: int|
        0 <= copy < bpb.num_fats ==> 0 <= #[trigger] fat_lba(bpb, copy, cluster) < disk.len()
            && disk[fat_lba(bpb, copy, cluster)].len() == 512
}

/// Setting an entry changes its sector in each copy of the table and nothing else.
pub proof fn lemma_set_copies(
    disk: Seq<Seq<u8>>,
    bpb: FatBpb,
    cluster: u32,
    value: u32,
    copies: nat,
)
    requires
        entry_on_disk(disk, bpb, cluster),
        in_table(bpb, cluster),
        copies <= bpb.num_fats,
    ensures
        ({
            let d = fat_set_copies(disk, bpb, cluster, value, copies);
            &&& d.len() == disk.len()
            &&& forall|i: int| 0 <= i < disk.len() ==> (#[trigger] d[i]).len() == disk[i].len()
            &&& forall|k: int|
                0 <= k < copies ==> #[trigger] d[fat_lba(bpb, k, cluster)] == put_entry(
                    bpb,
                    disk[fat_lba(bpb, k, cluster)],
                    cluster,
                    value,
                )
            &&& forall|i: int|
                0 <= i < disk.len() && (forall|k: int|
                    0 <= k < copies ==> i != #[trigger] fat_lba(bpb, k, cluster))
                    ==> #[trigger] d[i] == disk[i]
        }),
    decreases copies,
{
    if copies > 0 {
        let n = (copies - 1) as nat;
        lemma_set_copies(disk, bpb, cluster, value, n);
        let e = fat_set_copies(disk, bpb, cluster, value, n);
        let d = fat_set_copies(disk, bpb, cluster, value, copies);
        let lba = fat_lba(bpb, copies - 1, cluster);
        assert forall|k: int| 0 <= k < n implies #[trigger] fat_lba(bpb, k, cluster) < lba by {
            lemma_copies_apart(bpb, k, copies - 1, cluster, cluster);
        }
        assert(e[lba] == disk[lba]);
        assert forall|k: int| 0 <= k < copies implies #[trigger] d[fat_lba(bpb, k, cluster)]
            == put_entry(bpb, disk[fat_lba(bpb, k, cluster)], cluster, value) by {
            if k < n {
                assert(e[fat_lba(bpb, k, cluster)] == put_entry(
                    bpb,
                    disk[fat_lba(bpb, k, cluster)],
                    cluster,
                    value,
                ));
            }
        }
        assert forall|i: int|
            0 <= i < disk.len() && (forall|k: int|
                0 <= k < copies ==> i != #[trigger] fat_lba(bpb, k, cluster)) implies #[trigger] d[i]
            == disk[i] by {
            assert(i != fat_lba(bpb, copies - 1, cluster));
            assert(e[i] == disk[i]);
        }
    }
}

proof fn lemma_offsets_apart(bpb: FatBpb, cluster: u32, other: u32)
    requires
        other != cluster,
        fat_byte(bpb.variant, other) / 512 == fat_byte(bpb.variant, cluster) / 512,
    ensures
        ({
            let width = if bpb.variant == FatVariant::Fat16 {
                2int
            } else {
                4
            };
            ||| fat_offset(bpb, other) + width <= fat_offset(bpb, cluster)
            ||| fat_offset(bpb, cluster) + width <= fat_offset(bpb, other)
        }),
{
    let a = fat_byte(bpb.variant, cluster);
    let b = fat_byte(bpb.variant, other);
    assert(a == 512 * (a / 512) + a % 512);
    assert(b == 512 * (b / 512) + b % 512);
}

/// A 28-bit value survives in the low bits of a number whose top four bits are kept.
proof fn lemma_low_bits(value: u32, kept: int)
    requires
        0 <= kept < 16,
    ensures
        ({
            let top = kept * 16 + bytes::byte_of(value, 3) % 16;
            &&& 0 <= top < 256
            &&& (bytes::byte_of(value, 0) + 0x100 * bytes::byte_of(value, 1) + 0x1_0000
                * bytes::byte_of(value, 2) + 0x100_0000 * top) % 0x1000_0000 == value
                % 0x1000_0000
        }),
{
    let low = bytes::byte_of(value, 0) + 0x100 * bytes::byte_of(value, 1) + 0x1_0000
        * bytes::byte_of(value, 2);
    let b3 = bytes::byte_of(value, 3) as int;
    assert(value == low + 0x100_0000 * b3);
    assert(b3 == 16 * (b3 / 16) + b3 % 16);
    let rest = low + 0x100_0000 * (b3 % 16);
    assert(0 <= rest < 0x1000_0000);
    assert(value == 0x1000_0000 * (b3 / 16) + rest);
    assert((0x1000_0000 * (b3 / 16) + rest) % 0x1000_0000 == rest);
    assert((0x1000_0000 * kept + rest) % 0x1000_0000 == rest);
}

/// What `put_entry` does to the entry that it writes.
proof fn lemma_put_same(bpb: FatBpb, sector: Seq<u8>, cluster: u32, value: u32)
    requires
        sector.len() == 512,
    ensures
        entry_in(bpb, put_entry(bpb, sector, cluster, value), cluster) == stored(bpb, value),
        bpb.variant == FatVariant::Fat32 ==> put_entry(bpb, sector, cluster, value)[fat_offset(
            bpb,
            cluster,
        ) + 3] / 16 == sector[fat_offset(bpb, cluster) + 3] / 16,
{
    lemma_entry_fits(bpb, cluster);
    let at = fat_offset(bpb, cluster);
    let put = put_entry(bpb, sector, cluster, value);
    assert(put[at] == bytes::byte_of(value, 0));
    assert(put[at + 1] == bytes::byte_of(value, 1));
    match bpb.variant {
        FatVariant::Fat16 => {},
        FatVariant::Fat32 => {
            lemma_low_bits(value, (sector[at + 3] / 16) as int);
            assert(put[at + 2] == bytes::byte_of(value, 2));
            assert(put[at + 3] == sector[at + 3] / 16 * 16 + bytes::byte_of(value, 3) % 16);
        },
    }
}

/// What `put_entry` does to the other entries of the sector.
proof fn lemma_put_other(bpb: FatBpb, sector: Seq<u8>, cluster: u32, value: u32, other: u32)
    requires
        sector.len() == 512,
        other != cluster,
        fat_byte(bpb.variant, other) / 512 == fat_byte(bpb.variant, cluster) / 512,
    ensures
        entry_in(bpb, put_entry(bpb, sector, cluster, value), other) == entry_in(
            bpb,
            sector,
            other,
        ),
{
    lemma_entry_fits(bpb, cluster);
    lemma_entry_fits(bpb, other);
    lemma_offsets_apart(bpb, cluster, other);
    let o = fat_offset(bpb, other);
    let put = put_entry(bpb, sector, cluster, value);
    assert(put[o] == sector[o] && put[o + 1] == sector[o + 1]);
    if bpb.variant == FatVariant::Fat32 {
        assert(put[o + 2] == sector[o + 2] && put[o + 3] == sector[o + 3]);
    }
}

/// A table entry reads back as what was written to it, cut to the width of an entry, in
/// every copy of the table. No other entry has changed, nor has any sector that holds no
/// copy of the entry, and the top four bits of a FAT32 entry are kept.
///
/// This is so after every successful write of an entry that lies inside its copy of the
/// table: such a write finds the sectors of the entry on the disk.
pub proof fn law_fat_read_after_write(
    disk: Seq<Seq<u8>>,
    bpb: FatBpb,
    cluster: u32,
    value: u32,
    other: u32,
    copy: int,
)
    requires
        bpb.num_fats >= 1,
        entry_on_disk(disk, bpb, cluster),
        in_table(bpb, cluster),
        in_table(bpb, other),
        0 <= fat_lba(bpb, 0, other) < disk.len(),
        0 <= copy < bpb.num_fats,
    ensures
        fat_set(disk, bpb, cluster, value).len() == disk.len(),
        forall|i: int|
            0 <= i < disk.len() ==> (#[trigger] fat_set(disk, bpb, cluster, value)[i]).len()
                == disk[i].len(),
        fat_get(fat_set(disk, bpb, cluster, value), bpb, cluster) == stored(bpb, value),
        entry_in(
            bpb,
            fat_set(disk, bpb, cluster, value)[fat_lba(bpb, copy, cluster)],
            cluster,
        ) == stored(bpb, value),
        bpb.variant == FatVariant::Fat32 ==> fat_set(disk, bpb, cluster, value)[fat_lba(
            bpb,
            copy,
            cluster,
        )][fat_offset(bpb, cluster) + 3] / 16 == disk[fat_lba(bpb, copy, cluster)][fat_offset(
            bpb,
            cluster,
        ) + 3] / 16,
        other != cluster ==> fat_get(fat_set(disk, bpb, cluster, value), bpb, other) == fat_get(
            disk,
            bpb,
            other,
        ),
        kept_but(disk, fat_set(disk, bpb, cluster, value), bpb, seq![cluster]),
{
    let d = fat_set(disk, bpb, cluster, value);
    lemma_set_copies(disk, bpb, cluster, value, bpb.num_fats as nat);
    lemma_set_kept(disk, bpb, cluster, value, bpb.num_fats as nat, seq![cluster], 0);
    assert(0 <= fat_lba(bpb, 0, cluster) < disk.len());
    assert(0 <= fat_lba(bpb, copy, cluster) < disk.len());
    assert(d[fat_lba(bpb, 0, cluster)] == put_entry(
        bpb,
        disk[fat_lba(bpb, 0, cluster)],
        cluster,
        value,
    ));
    lemma_put_same(bpb, disk[fat_lba(bpb, 0, cluster)], cluster, value);
    lemma_put_same(bpb, disk[fat_lba(bpb, copy, cluster)], cluster, value);
    if other != cluster {
        assert forall|k: int| 1 <= k < bpb.num_fats implies fat_lba(bpb, 0, other)
            != #[trigger] fat_lba(bpb, k, cluster) by {
            lemma_copies_apart(bpb, 0, k, other, cluster);
        }
        if fat_lba(bpb, 0, other) != fat_lba(bpb, 0, cluster) {
            assert(d[fat_lba(bpb, 0, other)] == disk[fat_lba(bpb, 0, other)]);
        } else {
            lemma_put_other(bpb, disk[fat_lba(bpb, 0, cluster)], cluster, value, other);
        }
    }
}

/// Whether the entry of cluster `c`, in the first copy of the table, stands where copy
/// `copy` has the entry of cluster `m`. For a copy behind the first this needs a `c` whose
/// entry lies past the end of its own copy.
pub open spec fn same_place(bpb: FatBpb, c: u32, copy: int, m: u32) -> bool {
    fat_lba(bpb, 0, c) == fat_lba(bpb, copy, m) && fat_offset(bpb, c) == fat_offset(bpb, m)
}

/// What writing an entry into a sector does to what is read there as the entry of another
/// cluster.
proof fn lemma_put_any(bpb: FatBpb, sector: Seq<u8>, cluster: u32, value: u32, other: u32)
    requires
        sector.len() == 512,
    ensures
        entry_in(bpb, put_entry(bpb, sector, cluster, value), other) == if fat_offset(
            bpb,
            other,
        ) == fat_offset(bpb, cluster) {
            stored(bpb, value)
        } else {
            entry_in(bpb, sector, other)
        },
{
    lemma_entry_fits(bpb, cluster);
    lemma_entry_fits(bpb, other);
    if fat_offset(bpb, other) == fat_offset(bpb, cluster) {
        lemma_put_same(bpb, sector, cluster, value);
    } else {
        let o = fat_offset(bpb, other);
        let c = fat_offset(bpb, cluster);
        assert(forall|x: int| x >= 0 ==> #[trigger] (x * 2 % 512) % 2 == 0);
        assert(forall|x: int| x >= 0 ==> #[trigger] (x * 4 % 512) % 4 == 0);
        let put = put_entry(bpb, sector, cluster, value);
        assert(put[o] == sector[o] && put[o + 1] == sector[o + 1]);
        if bpb.variant == FatVariant::Fat32 {
            assert(put[o + 2] == sector[o + 2] && put[o + 3] == sector[o + 3]);
        }
    }
}

/// Setting an entry changes what is read as the entry of a cluster only where one of the
/// copies has the entry in that place.
proof fn lemma_get_after(
    disk: Seq<Seq<u8>>,
    bpb: FatBpb,
    cluster: u32,
    value: u32,
    other: u32,
    copies: nat,
)
    requires
        copies <= bpb.num_fats,
        entry_on_disk(disk, bpb, cluster),
        0 <= fat_lba(bpb, 0, other) < disk.len(),
        disk[fat_lba(bpb, 0, other)].len() == 512,
    ensures
        ({
            let d = fat_set_copies(disk, bpb, cluster, value, copies);
            &&& d.len() == disk.len()
            &&& forall|i: int| 0 <= i < disk.len() ==> (#[trigger] d[i]).len() == disk[i].len()
            &&& fat_get(d, bpb, other) == if exists|copy: int|
                0 <= copy < copies && #[trigger] same_place(bpb, other, copy, cluster) {
                stored(bpb, value)
            } else {
                fat_get(disk, bpb, other)
            }
        }),
    decreases copies,
{
    if copies > 0 {
        let n = (copies - 1) as nat;
        lemma_get_after(disk, bpb, cluster, value, other, n);
        let e = fat_set_copies(disk, bpb, cluster, value, n);
        let lba = fat_lba(bpb, copies - 1, cluster);
        assert(0 <= lba < disk.len());
        if fat_lba(bpb, 0, other) == lba {
            lemma_put_any(bpb, e[lba], cluster, value, other);
            if fat_offset(bpb, other) == fat_offset(bpb, cluster) {
                assert(same_place(bpb, other, n as int, cluster));
            }
        }
    }
}

/// Every cluster of a chain but the last links to the next.
pub proof fn lemma_chain_links(disk: Seq<Seq<u8>>, bpb: FatBpb, start: u32, limit: nat, i: int)
    requires
        0 <= i < chain_of(disk, bpb, start, limit).len() - 1,
    ensures
        fat_get(disk, bpb, chain_of(disk, bpb, start, limit)[i]) == chain_of(
            disk,
            bpb,
            start,
            limit,
        )[i + 1],
    decreases limit,
{
    let next = fat_get(disk, bpb, start);
    let rest = chain_of(disk, bpb, next, (limit - 1) as nat);
    if i > 0 {
        lemma_chain_links(disk, bpb, next, (limit - 1) as nat, i - 1);
    }
}

/// Whether freeing a chain leaves the entries of all other clusters alone: none of them
/// stands where a further copy of the table has the entry of a freed cluster, or it is free
/// already.
pub open spec fn freed_apart(disk: Seq<Seq<u8>>, bpb: FatBpb, chain: Seq<u32>) -> bool {
    forall|c: u32, copy: int, i: int|
        2 <= c <= bpb.top_cluster() && !chain.contains(c) && 1 <= copy < bpb.num_fats && 0 <= i
            < chain.len() && #[trigger] same_place(bpb, c, copy, chain[i]) ==> fat_get(
            disk,
            bpb,
            c,
        ) == 0
}

/// Whether a disk has full sectors and the entries of all the clusters that are counted.
pub open spec fn counted(disk: Seq<Seq<u8>>, bpb: FatBpb) -> bool {
    &&& bpb.num_fats >= 1
    &&& forall|i: int| 0 <= i < disk.len() ==> (#[trigger] disk[i]).len() == 512
    &&& forall|c: u32|
        2 <= c <= bpb.top_cluster() ==> 0 <= #[trigger] fat_lba(bpb, 0, c) < disk.len()
}

proof fn lemma_filled(disk: Seq<Seq<u8>>, bpb: FatBpb, chain: Seq<u32>)
    requires
        counted(disk, bpb),
        forall|i: int| 0 <= i < chain.len() ==> entry_on_disk(disk, bpb, #[trigger] chain[i]),
    ensures
        ({
            let after = fat_fill(disk, bpb, chain, 0);
            &&& counted(after, bpb)
            &&& after.len() == disk.len()
            &&& forall|c: u32|
                2 <= c <= bpb.top_cluster() ==> #[trigger] fat_get(after, bpb, c) == if exists|
                    copy: int,
                    i: int,
                |
                    0 <= copy < bpb.num_fats && 0 <= i < chain.len() && #[trigger] same_place(
                        bpb,
                        c,
                        copy,
                        chain[i],
                    ) {
                    0
                } else {
                    fat_get(disk, bpb, c)
                }
        }),
    decreases chain.len(),
{
    let after = fat_fill(disk, bpb, chain, 0);
    if chain.len() > 0 {
        let front = chain.drop_last();
        let last = chain.last();
        let n = chain.len() - 1;
        assert(last == chain[n]);
        assert forall|i: int| 0 <= i < front.len() implies entry_on_disk(
            disk,
            bpb,
            #[trigger] front[i],
        ) by {
            assert(front[i] == chain[i]);
        }
        lemma_filled(disk, bpb, front);
        let before = fat_fill(disk, bpb, front, 0);
        assert(entry_on_disk(before, bpb, last));
        lemma_get_after(before, bpb, last, 0, 2, bpb.num_fats as nat);
        assert(stored(bpb, 0) == 0);
        assert forall|c: u32| 2 <= c <= bpb.top_cluster() implies #[trigger] fat_get(after, bpb, c)
            == if exists|copy: int, i: int|
            0 <= copy < bpb.num_fats && 0 <= i < chain.len() && #[trigger] same_place(
                bpb,
                c,
                copy,
                chain[i],
            ) {
            0
        } else {
            fat_get(disk, bpb, c)
        } by {
            assert(0 <= fat_lba(bpb, 0, c) < disk.len());
            lemma_get_after(before, bpb, last, 0, c, bpb.num_fats as nat);
            if exists|copy: int, i: int|
                0 <= copy < bpb.num_fats && 0 <= i < chain.len() && #[trigger] same_place(
                    bpb,
                    c,
                    copy,
                    chain[i],
                ) {
                let (copy, i) = choose|copy: int, i: int|
                    0 <= copy < bpb.num_fats && 0 <= i < chain.len() && #[trigger] same_place(
                        bpb,
                        c,
                        copy,
                        chain[i],
                    );
                if i < n {
                    assert(same_place(bpb, c, copy, front[i]));
                } else {
                    assert(same_place(bpb, c, copy, last));
                }
            } else {
                assert forall|copy: int, i: int|
                    0 <= copy < bpb.num_fats && 0 <= i < front.len() implies !#[trigger] same_place(
                    bpb,
                    c,
                    copy,
                    front[i],
                ) by {
                    assert(!same_place(bpb, c, copy, chain[i]));
                }
                assert forall|copy: int| 0 <= copy < bpb.num_fats implies !#[trigger] same_place(
                    bpb,
                    c,
                    copy,
                    last,
                ) by {
                    assert(!same_place(bpb, c, copy, chain[n]));
                }
            }
        }
    }
}

/// How many numbers from 2 up to `end`, without `end`, occur in a chain.
spec fn members_below(chain: Seq<u32>, end: int) -> int
    decreases end,
{
    if end <= 2 {
        0
    } else {
        members_below(chain, end - 1) + if chain.contains((end - 1) as u32) {
            1int
        } else {
            0
        }
    }
}

proof fn lemma_members_front(chain: Seq<u32>, end: int)
    requires
        chain.len() > 0,
        chain.no_duplicates(),
        2 <= chain.last(),
        end <= 0x1_0000_0000,
    ensures
        members_below(chain, end) == members_below(chain.drop_last(), end) + if chain.last() < end {
            1int
        } else {
            0
        },
    decreases end,
{
    if end > 2 {
        lemma_members_front(chain, end - 1);
        let c = (end - 1) as u32;
        let front = chain.drop_last();
        assert(chain.last() == chain[chain.len() - 1]);
        if chain.contains(c) && c != chain.last() {
            let i = choose|i: int| 0 <= i < chain.len() && chain[i] == c;
            assert(front[i] == c);
        }
        if front.contains(c) {
            let i = choose|i: int| 0 <= i < front.len() && front[i] == c;
            assert(chain[i] == c);
        }
    }
}

proof fn lemma_members_all(chain: Seq<u32>, end: int)
    requires
        chain.no_duplicates(),
        forall|i: int| 0 <= i < chain.len() ==> 2 <= #[trigger] chain[i] < end,
        end <= 0x1_0000_0000,
    ensures
        members_below(chain, end) == chain.len(),
    decreases chain.len(),
{
    if chain.len() > 0 {
        let front = chain.drop_last();
        assert forall|i: int| 0 <= i < front.len() implies 2 <= #[trigger] front[i] < end by {
            assert(front[i] == chain[i]);
        }
        assert(chain.last() == chain[chain.len() - 1]);
        lemma_members_all(front, end);
        lemma_members_front(chain, end);
    } else {
        lemma_members_none(chain, end);
    }
}

proof fn lemma_members_none(chain: Seq<u32>, end: int)
    requires
        chain.len() == 0,
    ensures
        members_below(chain, end) == 0,
    decreases end,
{
    if end > 2 {
        lemma_members_none(chain, end - 1);
    }
}

proof fn lemma_count(
    disk: Seq<Seq<u8>>,
    after: Seq<Seq<u8>>,
    bpb: FatBpb,
    chain: Seq<u32>,
    end: int,
)
    requires
        end <= bpb.top_cluster() + 1,
        forall|c: u32|
            2 <= c <= bpb.top_cluster() && chain.contains(c) ==> #[trigger] fat_get(after, bpb, c)
                == 0 && fat_get(disk, bpb, c) != 0,
        forall|c: u32|
            2 <= c <= bpb.top_cluster() && !chain.contains(c) ==> #[trigger] fat_get(after, bpb, c)
                == fat_get(disk, bpb, c),
    ensures
        free_below(after, bpb, end) == free_below(disk, bpb, end) + members_below(chain, end),
    decreases end,
{
    if end > 2 {
        lemma_count(disk, after, bpb, chain, end - 1);
        let c = (end - 1) as u32;
        assert(2 <= c <= bpb.top_cluster());
        assert(fat_get(after, bpb, c) == 0 || fat_get(after, bpb, c) != 0);
    }
}

/// Freeing a chain that ends in an end-of-chain mark, and in which no cluster occurs twice,
/// leaves every cluster of it free and every other entry of the table as it was. So the
/// number of free clusters grows by the length of the chain. No sector changes but those
/// that hold the entries of the chain.
pub proof fn law_free_chain<D: BlockDevice>(a: &D, b: &D, bpb: FatBpb, start: u32)
    requires
        ({
            let disk = a.sectors();
            let chain = cluster_chain(disk, bpb, start);
            &&& counted(disk, bpb)
            &&& chain_writable(a, bpb, chain)
            &&& b.sectors() == fat_fill(disk, bpb, chain, 0)
            &&& chain.no_duplicates()
            &&& forall|i: int| 0 <= i < chain.len() ==> #[trigger] chain[i] <= bpb.top_cluster()
            &&& chain.len() > 0 ==> fat_get(disk, bpb, chain.last()) >= bpb.end_mark()
            &&& freed_apart(disk, bpb, chain)
        }),
    ensures
        ({
            let disk = a.sectors();
            let freed = b.sectors();
            let chain = cluster_chain(disk, bpb, start);
            &&& forall|i: int|
                0 <= i < chain.len() ==> fat_get(freed, bpb, #[trigger] chain[i]) == 0
            &&& forall|c: u32|
                2 <= c <= bpb.top_cluster() && !chain.contains(c) ==> #[trigger] fat_get(
                    freed,
                    bpb,
                    c,
                ) == fat_get(disk, bpb, c)
            &&& free_below(freed, bpb, bpb.top_cluster() + 1) == free_below(
                disk,
                bpb,
                bpb.top_cluster() + 1,
            ) + chain.len()
            &&& kept_but(disk, freed, bpb, chain)
        }),
{
    let disk = a.sectors();
    let chain = cluster_chain(disk, bpb, start);
    let freed = b.sectors();
    lemma_chain_members(disk, bpb, start, MAX_CHAIN as nat);
    assert forall|i: int| 0 <= i < chain.len() implies entry_on_disk(
        disk,
        bpb,
        #[trigger] chain[i],
    ) by {
        assert(entry_writable(a, bpb, chain[i]));
    }
    lemma_filled(disk, bpb, chain);
    assert forall|i: int| 0 <= i < chain.len() implies {
        &&& fat_get(freed, bpb, #[trigger] chain[i]) == 0
        &&& fat_get(disk, bpb, chain[i]) != 0
    } by {
        assert(same_place(bpb, chain[i], 0, chain[i]));
        if i < chain.len() - 1 {
            lemma_chain_links(disk, bpb, start, MAX_CHAIN as nat, i);
            assert(chain[i + 1] >= 2);
        } else {
            assert(chain.last() == chain[i]);
        }
    }
    assert forall|c: u32| 2 <= c <= bpb.top_cluster() && !chain.contains(c)
        implies #[trigger] fat_get(freed, bpb, c) == fat_get(disk, bpb, c) by {
        if exists|copy: int, i: int|
            0 <= copy < bpb.num_fats && 0 <= i < chain.len() && #[trigger] same_place(
                bpb,
                c,
                copy,
                chain[i],
            ) {
            let (copy, i) = choose|copy: int, i: int|
                0 <= copy < bpb.num_fats && 0 <= i < chain.len() && #[trigger] same_place(
                    bpb,
                    c,
                    copy,
                    chain[i],
                );
            if copy == 0 {
                lemma_place_unique(bpb, c, chain[i]);
                assert(chain.contains(chain[i]));
            }
        }
    }
    assert forall|c: u32| 2 <= c <= bpb.top_cluster() && chain.contains(c)
        implies #[trigger] fat_get(freed, bpb, c) == 0 && fat_get(disk, bpb, c) != 0 by {
        let i = choose|i: int| 0 <= i < chain.len() && chain[i] == c;
        assert(fat_get(freed, bpb, chain[i]) == 0);
    }
    lemma_count(disk, freed, bpb, chain, bpb.top_cluster() + 1);
    lemma_members_all(chain, bpb.top_cluster() + 1);
    lemma_fill_kept(disk, bpb, chain, chain.len() as int);
    assert(chain.take(chain.len() as int) =~= chain);
}

/// In one copy of the table each entry stands for one cluster.
proof fn lemma_place_unique(bpb: FatBpb, c: u32, d: u32)
    requires
        same_place(bpb, c, 0, d),
    ensures
        c == d,
{
    let x = fat_byte(bpb.variant, c);
    let y = fat_byte(bpb.variant, d);
    assert(x == 512 * (x / 512) + x % 512);
    assert(y == 512 * (y / 512) + y % 512);
}

proof fn lemma_fill_kept(disk: Seq<Seq<u8>>, bpb: FatBpb, chain: Seq<u32>, n: int)
    requires
        0 <= n <= chain.len(),
        forall|i: int| 0 <= i < chain.len() ==> entry_on_disk(disk, bpb, #[trigger] chain[i]),
    ensures
        kept_but(disk, fat_fill(disk, bpb, chain.take(n), 0), bpb, chain),
    decreases n,
{
    let some = chain.take(n);
    if n > 0 {
        assert(some.drop_last() =~= chain.take(n - 1));
        lemma_fill_kept(disk, bpb, chain, n - 1);
        let before = fat_fill(disk, bpb, chain.take(n - 1), 0);
        assert(some.last() == chain[n - 1]);
        lemma_set_kept(before, bpb, chain[n - 1], 0, bpb.num_fats as nat, chain, n - 1);
    }
}

} // verus!
