//! The contents of cluster chains and of fixed runs of sectors.
use vstd::prelude::*;

use crate::block::BlockDevice;
use crate::bytes;
use crate::fat32::bpb::FatBpb;
use crate::fat32::table;
use crate::vfs::VfsError;

verus! {

/// Sectors in the clusters of a chain.
pub open spec fn sectors_in(bpb: FatBpb, chain: Seq<u32>) -> int {
    chain.len() * bpb.sectors_per_cluster
}

/// The LBA of the `k`-th sector of a chain.
pub open spec fn chain_lba(bpb: FatBpb, chain: Seq<u32>, k: int) -> int {
    bpb.cluster_lba(chain[k / bpb.sectors_per_cluster as int]) + k % bpb.sectors_per_cluster as int
}

/// Everything in the clusters of a chain, in order.
pub open spec fn chain_bytes(disk: Seq<Seq<u8>>, bpb: FatBpb, chain: Seq<u32>) -> Seq<u8> {
    Seq::new(
        (sectors_in(bpb, chain) * 512) as nat,
        |i: int| disk[chain_lba(bpb, chain, i / 512)][i % 512],
    )
}

/// Whether the first `count` sectors of a chain exist.
pub open spec fn sectors_exist<D: BlockDevice>(
    device: &D,
    bpb: FatBpb,
    chain: Seq<u32>,
    count: int,
) -> bool {
    forall|k: int| 0 <= k < count ==> table::has_sector(device, #[trigger] chain_lba(bpb, chain, k))
}

/// Sectors that hold `len` bytes.
pub open spec fn sectors_for(len: int) -> int {
    (len + 511) / 512
}

pub open spec fn min(a: int, b: int) -> int {
    if a <= b {
        a
    } else {
        b
    }
}

pub open spec fn max(a: int, b: int) -> int {
    if a <= b {
        b
    } else {
        a
    }
}

/// The `s`-th sector of the `i`-th cluster.
pub proof fn lemma_sector_index(bpb: FatBpb, chain: Seq<u32>, i: int, s: int)
    requires
        0 <= i < chain.len(),
        0 <= s < bpb.sectors_per_cluster,
    ensures
        0 <= i * bpb.sectors_per_cluster + s < sectors_in(bpb, chain),
        chain_lba(bpb, chain, i * bpb.sectors_per_cluster + s) == bpb.cluster_lba(chain[i]) + s,
        (i + 1) * bpb.sectors_per_cluster == i * bpb.sectors_per_cluster + bpb.sectors_per_cluster,
{
    let spc = bpb.sectors_per_cluster as int;
    vstd::arithmetic::div_mod::lemma_fundamental_div_mod_converse(i * spc + s, spc, i, s);
    assert(0 <= i * spc && i * spc + spc <= chain.len() * spc && (i + 1) * spc == i * spc + spc)
        by (nonlinear_arith)
        requires
            0 <= i,
            i + 1 <= chain.len(),
            0 < spc,
    ;
}

/// Read file content described by a cluster chain into a buffer: as much as both hold.
pub fn read_file_data<D: BlockDevice>(
    device: &D,
    bpb: &FatBpb,
    chain: &[u32],
    buf: &mut [u8],
) -> (r: Result<usize, VfsError>)
    requires
        device.wf(),
        bpb.wf(),
    ensures
        final(buf)@.len() == old(buf)@.len(),
        ({
            let n = min(old(buf)@.len() as int, sectors_in(*bpb, chain@) * 512);
            match r {
                Ok(read) => {
                    &&& read == n
                    &&& sectors_exist(device, *bpb, chain@, sectors_for(n))
                    &&& final(buf)@ == bytes::overlay(
                        old(buf)@,
                        0,
                        chain_bytes(device.sectors(), *bpb, chain@).take(n),
                    )
                },
                Err(e) => e == VfsError::IoError && (device.reliable() ==> !sectors_exist(
                    device,
                    *bpb,
                    chain@,
                    sectors_for(n),
                )),
            }
        }),
{
    let mut bytes_read: usize = 0;
    let buf_len: usize = buf.len();
    let ghost before = buf@;
    let ghost all = chain_bytes(device.sectors(), *bpb, chain@);
    let ghost total = sectors_in(*bpb, chain@);
    proof {
        assert(0 <= total) by (nonlinear_arith)
            requires
                total == chain@.len() * bpb.sectors_per_cluster,
                0 <= bpb.sectors_per_cluster,
        ;
        assert(0 * bpb.sectors_per_cluster == 0);
        assert(bytes::overlay(before, 0, all.take(0)) =~= before);
    }
    let mut i: usize = 0;
    while i < chain.len()
        invariant
            i <= chain@.len(),
            device.wf(),
            bpb.wf(),
            before == old(buf)@,
            buf_len == before.len(),
            buf@.len() == before.len(),
            total == sectors_in(*bpb, chain@),
            0 <= i * bpb.sectors_per_cluster <= total,
            all == chain_bytes(device.sectors(), *bpb, chain@),
            bytes_read == min(buf_len as int, i * bpb.sectors_per_cluster * 512),
            buf@ == bytes::overlay(before, 0, all.take(bytes_read as int)),
            sectors_exist(device, *bpb, chain@, sectors_for(bytes_read as int)),
        decreases chain@.len() - i,
    {
        let sector: u64 = bpb.cluster_to_sector(chain[i]);
        let ghost first = i * bpb.sectors_per_cluster;
        let mut s: u64 = 0;
        while s < bpb.sectors_per_cluster as u64
            invariant
                s <= bpb.sectors_per_cluster,
                i < chain@.len(),
                device.wf(),
                bpb.wf(),
                before == old(buf)@,
                buf_len == before.len(),
                buf@.len() == before.len(),
                sector == bpb.cluster_lba(chain@[i as int]),
                sector <= 0x400_0000_0000,
                first == i * bpb.sectors_per_cluster,
                0 <= first,
                total == sectors_in(*bpb, chain@),
                all == chain_bytes(device.sectors(), *bpb, chain@),
                bytes_read == min(buf_len as int, (first + s) * 512),
                buf@ == bytes::overlay(before, 0, all.take(bytes_read as int)),
                sectors_exist(device, *bpb, chain@, sectors_for(bytes_read as int)),
            decreases bpb.sectors_per_cluster - s,
        {
            if bytes_read < buf_len {
                let ghost k = first + s;
                proof {
                    lemma_sector_index(*bpb, chain@, i as int, s as int);
                    assert(sectors_for(bytes_read as int) == k);
                }
                let sector_buf: [u8; 512] = match table::read_block(device, sector + s) {
                    Ok(b) => b,
                    Err(e) => {
                        assert(k < sectors_for(min(buf_len as int, total * 512)));
                        assert(!table::has_sector(device, chain_lba(*bpb, chain@, k))
                            || !device.reliable());
                        return Err(e);
                    },
                };
                let to_copy: usize = if buf_len - bytes_read < 512 {
                    buf_len - bytes_read
                } else {
                    512
                };
                let ghost mid = buf@;
                bytes::copy_range(buf, bytes_read, &sector_buf, 0, to_copy);
                proof {
                    let upto = bytes_read + to_copy;
                    assert(upto <= all.len());
                    assert forall|j: int| 0 <= j < before.len() implies buf@[j] == bytes::overlay(
                        before,
                        0,
                        all.take(upto),
                    )[j] by {
                        if bytes_read <= j < upto {
                            assert(j / 512 == k && j % 512 == j - bytes_read);
                        }
                    }
                    assert(buf@ =~= bytes::overlay(before, 0, all.take(upto)));
                    assert(sectors_for(upto) == k + 1);
                }
                bytes_read = bytes_read + to_copy;
            }
            s = s + 1;
        }
        proof {
            lemma_sector_index(*bpb, chain@, i as int, 0);
            assert((i + 1) * bpb.sectors_per_cluster <= total) by (nonlinear_arith)
                requires
                    i + 1 <= chain@.len(),
                    total == chain@.len() * bpb.sectors_per_cluster,
                    0 <= bpb.sectors_per_cluster,
            ;
        }
        i = i + 1;
    }
    Ok(bytes_read)
}

/// How many bytes of `len` a chain has room for from byte `offset` on.
pub open spec fn room_for(bpb: FatBpb, chain: Seq<u32>, offset: int, len: int) -> int {
    let left = sectors_in(bpb, chain) * 512 - offset;
    if left <= 0 {
        0
    } else {
        min(len, left)
    }
}

/// The disk and the number of bytes written once a write of `data` at byte `offset` of a
/// chain, of which `done` bytes are written, has ended.
pub open spec fn write_from(
    disk: Seq<Seq<u8>>,
    bpb: FatBpb,
    chain: Seq<u32>,
    offset: int,
    data: Seq<u8>,
    done: int,
) -> (Seq<Seq<u8>>, int)
    decreases data.len() - done,
{
    let k = (offset + done) / 512;
    if k >= sectors_in(bpb, chain) || done >= data.len() {
        (disk, done)
    } else {
        let into = (offset + done) % 512;
        let n = min(512 - into, data.len() - done);
        let lba = chain_lba(bpb, chain, k);
        write_from(
            disk.update(lba, bytes::overlay(disk[lba], into, data.subrange(done, done + n))),
            bpb,
            chain,
            offset,
            data,
            done + n,
        )
    }
}

/// Whether the `k`-th sector of a chain is one that a write of `n` bytes at `offset` is for.
pub open spec fn in_write(offset: int, n: int, k: int) -> bool {
    n > 0 && offset / 512 <= k <= (offset + n - 1) / 512
}

/// Whether all the sectors that a write is for exist.
pub open spec fn write_reach<D: BlockDevice>(
    device: &D,
    bpb: FatBpb,
    chain: Seq<u32>,
    offset: int,
    len: int,
) -> bool {
    forall|k: int|
        in_write(offset, room_for(bpb, chain, offset, len), k) ==> table::has_sector(
            device,
            #[trigger] chain_lba(bpb, chain, k),
        )
}

/// Whether two disks differ at most in the sectors that a write is for.
pub open spec fn kept_outside(
    a: Seq<Seq<u8>>,
    b: Seq<Seq<u8>>,
    bpb: FatBpb,
    chain: Seq<u32>,
    offset: int,
    n: int,
) -> bool {
    &&& a.len() == b.len()
    &&& forall|i: int|
        0 <= i < a.len() && (forall|k: int|
            in_write(offset, n, k) ==> i != #[trigger] chain_lba(bpb, chain, k)) ==> #[trigger] b[i]
            == a[i]
}

/// Whether a chain consists of different data clusters that lie on a disk.
pub open spec fn proper_chain(disk: Seq<Seq<u8>>, bpb: FatBpb, chain: Seq<u32>) -> bool {
    &&& chain.no_duplicates()
    &&& forall|i: int| 0 <= i < chain.len() ==> 2 <= #[trigger] chain[i]
    &&& chain_on_disk(disk, bpb, chain)
}

/// Write data to sectors described by a cluster chain, at byte `offset` of the chain; the
/// number of bytes that the chain had room for. No other byte is changed.
pub fn write_file_data<D: BlockDevice>(
    device: &mut D,
    bpb: &FatBpb,
    chain: &[u32],
    offset: usize,
    buf: &[u8],
) -> (r: Result<usize, VfsError>)
    requires
        old(device).wf(),
        bpb.wf(),
    ensures
        table::same_geometry(old(device), final(device)),
        ({
            let a = old(device).sectors();
            let b = final(device).sectors();
            let n = room_for(*bpb, chain@, offset as int, buf@.len() as int);
            let reach = write_reach(
                old(device),
                *bpb,
                chain@,
                offset as int,
                buf@.len() as int,
            );
            &&& kept_outside(a, b, *bpb, chain@, offset as int, n)
            &&& match r {
                Ok(written) => {
                    &&& reach
                    &&& written == n
                    &&& (b, n) == write_from(a, *bpb, chain@, offset as int, buf@, 0)
                    &&& proper_chain(a, *bpb, chain@) ==> chain_bytes(b, *bpb, chain@)
                        == bytes::overlay(
                        chain_bytes(a, *bpb, chain@),
                        offset as int,
                        buf@.take(n),
                    )
                },
                Err(e) => e == VfsError::IoError && (old(device).reliable() ==> !reach),
            }
        }),
{
    let buf_len: usize = buf.len();
    let spc: usize = bpb.sectors_per_cluster as usize;
    let ghost before = *device;
    let ghost total = sectors_in(*bpb, chain@);
    let ghost off = offset as int;
    let ghost goal = write_from(before.sectors(), *bpb, chain@, off, buf@, 0);
    let ghost n = room_for(*bpb, chain@, off, buf_len as int);
    let mut done: usize = 0;
    let mut into: usize = offset % 512;
    let mut i: usize = offset / 512 / spc;
    let mut s: usize = offset / 512 % spc;
    let ghost mut k = off / 512;
    proof {
        vstd::arithmetic::div_mod::lemma_fundamental_div_mod(off / 512, spc as int);
        assert(k == i * spc + s) by {
            vstd::arithmetic::mul::lemma_mul_is_commutative(i as int, spc as int);
        }
        if i >= chain@.len() {
            lemma_past_end(*bpb, chain@, i as int, s as int);
        }
    }
    while done < buf_len && i < chain.len()
        invariant
            before == *old(device),
            before.wf(),
            bpb.wf(),
            table::same_geometry(&before, device),
            buf_len == buf@.len(),
            done <= buf_len,
            off == offset,
            spc == bpb.sectors_per_cluster,
            s < spc,
            k == i * spc + s,
            off / 512 <= k,
            done == 0 ==> k == off / 512,
            done < buf_len && i < chain@.len() ==> k * 512 + into == off + done,
            into < 512,
            total == sectors_in(*bpb, chain@),
            n == room_for(*bpb, chain@, off, buf_len as int),
            goal == write_from(before.sectors(), *bpb, chain@, off, buf@, 0),
            goal == write_from(device.sectors(), *bpb, chain@, off, buf@, done as int),
            kept_outside(before.sectors(), device.sectors(), *bpb, chain@, off, n),
            forall|m: int|
                off / 512 <= m < k ==> table::has_sector(
                    &before,
                    #[trigger] chain_lba(*bpb, chain@, m),
                ),
            done <= n,
            done < buf_len && i >= chain@.len() ==> k >= total && (done == 0 || off + done == k
                * 512),
            done == buf_len && done > 0 ==> (off + done - 1) / 512 < k,
        decreases buf_len - done,
    {
        proof {
            lemma_sector_index(*bpb, chain@, i as int, s as int);
            assert(k < total);
            assert((off + done) / 512 == k && (off + done) % 512 == into);
            assert(done < n);
            assert(in_write(off, n, k)) by {
                assert(off + done <= off + n - 1);
            }
        }
        let lba: u64 = bpb.cluster_to_sector(chain[i]) + s as u64;
        assert(lba == chain_lba(*bpb, chain@, k));
        let mut sector_buf: [u8; 512] = match table::read_block(device, lba) {
            Ok(b) => b,
            Err(e) => {
                return Err(e);
            },
        };
        let room: usize = 512 - into;
        let to_write: usize = if buf_len - done < room {
            buf_len - done
        } else {
            room
        };
        bytes::copy_range(&mut sector_buf, into, buf, done, to_write);
        match table::write_block(device, lba, &sector_buf) {
            Ok(_) => {},
            Err(e) => {
                return Err(e);
            },
        }
        done = done + to_write;
        into = 0;
        s = s + 1;
        proof {
            k = k + 1;
        }
        if s == spc {
            s = 0;
            i = i + 1;
            proof {
                assert(i * spc == (i - 1) * spc + spc) by (nonlinear_arith);
                if i >= chain@.len() {
                    lemma_past_end(*bpb, chain@, i as int, 0);
                }
            }
        }
    }
    proof {
        assert(done == n);
        assert forall|m: int| in_write(off, n, m) implies table::has_sector(
            &before,
            #[trigger] chain_lba(*bpb, chain@, m),
        ) by {
            assert(m < k);
        }
        if proper_chain(before.sectors(), *bpb, chain@) {
            law_data_read_after_write(before.sectors(), *bpb, chain@, off, buf@);
        }
    }
    Ok(done)
}

proof fn lemma_past_end(bpb: FatBpb, chain: Seq<u32>, i: int, s: int)
    requires
        i >= chain.len(),
        s >= 0,
    ensures
        i * bpb.sectors_per_cluster + s >= sectors_in(bpb, chain),
{
    assert(i * bpb.sectors_per_cluster >= chain.len() * bpb.sectors_per_cluster)
        by (nonlinear_arith)
        requires
            i >= chain.len(),
            0 <= bpb.sectors_per_cluster,
    ;
}

/// What a run of sectors holds.
pub open spec fn run_bytes(disk: Seq<Seq<u8>>, start: int, count: int) -> Seq<u8> {
    Seq::new((count * 512) as nat, |i: int| disk[start + i / 512][i % 512])
}

/// Whether all the sectors of a run exist.
pub open spec fn run_exists<D: BlockDevice>(device: &D, start: int, count: int) -> bool {
    count <= 0 || (device.sector_bytes() == 512 && 0 <= start && start + count
        <= device.sectors().len())
}

/// Read raw bytes from a fixed set of sectors (for the FAT16 root directory).
pub fn read_sectors<D: BlockDevice>(device: &D, start_sector: u64, num_sectors: u64) -> (r: Result<
    Vec<u8>,
    VfsError,
>)
    requires
        device.wf(),
        start_sector + num_sectors <= u64::MAX,
    ensures
        match r {
            Ok(data) => {
                &&& run_exists(device, start_sector as int, num_sectors as int)
                &&& data@ == run_bytes(device.sectors(), start_sector as int, num_sectors as int)
            },
            Err(e) => e == VfsError::IoError && (device.reliable() ==> !run_exists(
                device,
                start_sector as int,
                num_sectors as int,
            )),
        },
{
    let mut data: Vec<u8> = Vec::new();
    let mut s: u64 = 0;
    while s < num_sectors
        invariant
            s <= num_sectors,
            device.wf(),
            start_sector + num_sectors <= u64::MAX,
            run_exists(device, start_sector as int, s as int),
            data@ == run_bytes(device.sectors(), start_sector as int, s as int),
        decreases num_sectors - s,
    {
        let sector_buf: [u8; 512] = match table::read_block(device, start_sector + s) {
            Ok(b) => b,
            Err(e) => {
                assert(device.reliable() ==> !table::has_sector(device, start_sector + s));
                return Err(e);
            },
        };
        let ghost had = data@;
        bytes::append(&mut data, &sector_buf);
        s = s + 1;
        assert(data@ =~= run_bytes(device.sectors(), start_sector as int, s as int));
    }
    Ok(data)
}

/// The 512 bytes of `data` from `at` on, filled up with zeros.
pub open spec fn padded_sector(data: Seq<u8>, at: int) -> Seq<u8> {
    Seq::new(
        512,
        |j: int|
            if at + j < data.len() {
                data[at + j]
            } else {
                0u8
            },
    )
}

/// The disk with `data` in a run of sectors.
pub open spec fn write_run(disk: Seq<Seq<u8>>, start: int, count: int, data: Seq<u8>) -> Seq<
    Seq<u8>,
> {
    Seq::new(
        disk.len(),
        |lba: int|
            if start <= lba < start + count {
                padded_sector(data, (lba - start) * 512)
            } else {
                disk[lba]
            },
    )
}

/// Whether two disks differ at most in a run of sectors.
pub open spec fn kept_around(a: Seq<Seq<u8>>, b: Seq<Seq<u8>>, start: int, count: int) -> bool {
    &&& a.len() == b.len()
    &&& forall|i: int|
        0 <= i < a.len() && !(start <= i < start + count) ==> #[trigger] b[i] == a[i]
}

/// Write raw bytes to fixed sectors (for the FAT16 root directory).
pub fn write_sectors<D: BlockDevice>(
    device: &mut D,
    start_sector: u64,
    num_sectors: u64,
    data: &[u8],
) -> (r: Result<(), VfsError>)
    requires
        old(device).wf(),
        start_sector + num_sectors <= u64::MAX,
        num_sectors > 0 ==> (num_sectors - 1) * 512 <= data@.len(),
    ensures
        table::same_geometry(old(device), final(device)),
        match r {
            Ok(_) => {
                &&& run_exists(old(device), start_sector as int, num_sectors as int)
                &&& final(device).sectors() == write_run(
                    old(device).sectors(),
                    start_sector as int,
                    num_sectors as int,
                    data@,
                )
            },
            Err(e) => {
                &&& e == VfsError::IoError
                &&& old(device).reliable() ==> !run_exists(
                    old(device),
                    start_sector as int,
                    num_sectors as int,
                )
                &&& kept_around(
                    old(device).sectors(),
                    final(device).sectors(),
                    start_sector as int,
                    num_sectors as int,
                )
            },
        },
{
    let ghost before = *device;
    let mut s: u64 = 0;
    assert(before.sectors() =~= write_run(before.sectors(), start_sector as int, 0, data@));
    while s < num_sectors
        invariant
            s <= num_sectors,
            before == *old(device),
            before.wf(),
            table::same_geometry(&before, device),
            start_sector + num_sectors <= u64::MAX,
            num_sectors > 0 ==> (num_sectors - 1) * 512 <= data@.len(),
            run_exists(&before, start_sector as int, s as int),
            device.sectors() == write_run(
                before.sectors(),
                start_sector as int,
                s as int,
                data@,
            ),
        decreases num_sectors - s,
    {
        assert(data.len() == data@.len());
        let offset: usize = s as usize * 512;
        let rest: usize = data.len() - offset;
        let to_copy: usize = if rest < 512 {
            rest
        } else {
            512
        };
        let mut sector_buf: [u8; 512] = [0u8; 512];
        bytes::copy_range(&mut sector_buf, 0, data, offset, to_copy);
        assert(sector_buf@ =~= padded_sector(data@, s * 512));
        match table::write_block(device, start_sector + s, &sector_buf) {
            Ok(_) => {},
            Err(e) => {
                assert(before.reliable() ==> !table::has_sector(&before, start_sector + s));
                return Err(e);
            },
        }
        s = s + 1;
        assert(device.sectors() =~= write_run(
            before.sectors(),
            start_sector as int,
            s as int,
            data@,
        ));
    }
    Ok(())
}

/// Read everything in the clusters of a chain.
pub fn read_chain_bytes<D: BlockDevice>(device: &D, bpb: &FatBpb, chain: &[u32]) -> (r: Result<
    Vec<u8>,
    VfsError,
>)
    requires
        device.wf(),
        bpb.wf(),
    ensures
        match r {
            Ok(raw) => {
                &&& sectors_exist(device, *bpb, chain@, sectors_in(*bpb, chain@))
                &&& raw@ == chain_bytes(device.sectors(), *bpb, chain@)
            },
            Err(e) => e == VfsError::IoError && (device.reliable() ==> !sectors_exist(
                device,
                *bpb,
                chain@,
                sectors_in(*bpb, chain@),
            )),
        },
{
    let mut raw: Vec<u8> = Vec::new();
    let ghost all = chain_bytes(device.sectors(), *bpb, chain@);
    let ghost total = sectors_in(*bpb, chain@);
    let mut i: usize = 0;
    proof {
        assert(0 <= total) by (nonlinear_arith)
            requires
                total == chain@.len() * bpb.sectors_per_cluster,
                0 <= bpb.sectors_per_cluster,
        ;
        assert(0 * bpb.sectors_per_cluster == 0);
        assert(raw@ =~= all.take(0));
    }
    while i < chain.len()
        invariant
            i <= chain@.len(),
            device.wf(),
            bpb.wf(),
            all == chain_bytes(device.sectors(), *bpb, chain@),
            total == sectors_in(*bpb, chain@),
            0 <= i * bpb.sectors_per_cluster <= total,
            raw@ == all.take(i * bpb.sectors_per_cluster * 512),
            sectors_exist(device, *bpb, chain@, i * bpb.sectors_per_cluster),
        decreases chain@.len() - i,
    {
        let sector: u64 = bpb.cluster_to_sector(chain[i]);
        let ghost first = i * bpb.sectors_per_cluster;
        let mut s: u64 = 0;
        while s < bpb.sectors_per_cluster as u64
            invariant
                s <= bpb.sectors_per_cluster,
                i < chain@.len(),
                device.wf(),
                bpb.wf(),
                sector == bpb.cluster_lba(chain@[i as int]),
                sector <= 0x400_0000_0000,
                first == i * bpb.sectors_per_cluster,
                all == chain_bytes(device.sectors(), *bpb, chain@),
                total == sectors_in(*bpb, chain@),
                0 <= first,
                raw@ == all.take((first + s) * 512),
                sectors_exist(device, *bpb, chain@, first + s),
            decreases bpb.sectors_per_cluster - s,
        {
            proof {
                lemma_sector_index(*bpb, chain@, i as int, s as int);
            }
            let sector_buf: [u8; 512] = match table::read_block(device, sector + s) {
                Ok(b) => b,
                Err(e) => {
                    assert(device.reliable() ==> !table::has_sector(
                        device,
                        chain_lba(*bpb, chain@, first + s),
                    ));
                    return Err(e);
                },
            };
            let ghost had = raw@;
            bytes::append(&mut raw, &sector_buf);
            proof {
                let upto = (first + s + 1) * 512;
                assert forall|j: int| 0 <= j < upto implies raw@[j] == all.take(upto)[j] by {
                    if j >= had.len() {
                        assert(j / 512 == first + s && j % 512 == j - had.len());
                    }
                }
                assert(raw@ =~= all.take(upto));
            }
            s = s + 1;
        }
        proof {
            lemma_sector_index(*bpb, chain@, i as int, 0);
            assert((i + 1) * bpb.sectors_per_cluster <= total) by (nonlinear_arith)
                requires
                    i + 1 <= chain@.len(),
                    total == chain@.len() * bpb.sectors_per_cluster,
                    0 <= bpb.sectors_per_cluster,
            ;
        }
        i = i + 1;
    }
    assert(raw@ =~= all);
    Ok(raw)
}

/// Whether no sector belongs to a chain twice.
pub open spec fn sectors_distinct(bpb: FatBpb, chain: Seq<u32>) -> bool {
    forall|a: int, b: int|
        0 <= a < b < sectors_in(bpb, chain) ==> #[trigger] chain_lba(bpb, chain, a)
            != #[trigger] chain_lba(bpb, chain, b)
}

/// Whether all the sectors of a chain lie on a disk of 512-byte sectors.
pub open spec fn chain_on_disk(disk: Seq<Seq<u8>>, bpb: FatBpb, chain: Seq<u32>) -> bool {
    &&& forall|k: int|
        0 <= k < sectors_in(bpb, chain) ==> 0 <= #[trigger] chain_lba(bpb, chain, k) < disk.len()
    &&& forall|i: int| 0 <= i < disk.len() ==> (#[trigger] disk[i]).len() == 512
}

/// Different data clusters share no sector.
pub proof fn lemma_sectors_distinct(bpb: FatBpb, chain: Seq<u32>)
    requires
        bpb.wf(),
        chain.no_duplicates(),
        forall|i: int| 0 <= i < chain.len() ==> 2 <= #[trigger] chain[i],
    ensures
        sectors_distinct(bpb, chain),
{
    let spc = bpb.sectors_per_cluster as int;
    assert forall|a: int, b: int|
        0 <= a < b < sectors_in(bpb, chain) implies #[trigger] chain_lba(bpb, chain, a)
        != #[trigger] chain_lba(bpb, chain, b) by {
        vstd::arithmetic::div_mod::lemma_fundamental_div_mod(a, spc);
        vstd::arithmetic::div_mod::lemma_fundamental_div_mod(b, spc);
        lemma_index_bound(a, spc, chain.len() as int);
        lemma_index_bound(b, spc, chain.len() as int);
        let (i, s) = (a / spc, a % spc);
        let (j, t) = (b / spc, b % spc);
        if chain_lba(bpb, chain, a) == chain_lba(bpb, chain, b) {
            let x = (chain[i] - 2) * spc + s;
            vstd::arithmetic::div_mod::lemma_fundamental_div_mod_converse(x, spc, chain[i] - 2, s);
            vstd::arithmetic::div_mod::lemma_fundamental_div_mod_converse(x, spc, chain[j] - 2, t);
            assert(chain[i] == chain[j] && s == t);
            assert(i == j);
        }
    }
}

pub proof fn lemma_index_bound(k: int, spc: int, n: int)
    requires
        0 <= k < n * spc,
        spc > 0,
    ensures
        0 <= k / spc < n,
        0 <= k % spc < spc,
{
    vstd::arithmetic::div_mod::lemma_fundamental_div_mod(k, spc);
    assert(0 <= k / spc < n) by (nonlinear_arith)
        requires
            0 <= k < n * spc,
            spc > 0,
            k == spc * (k / spc) + k % spc,
            0 <= k % spc < spc,
    ;
}

/// Whether all the sectors of a disk have 512 bytes.
pub open spec fn full_sectors(disk: Seq<Seq<u8>>) -> bool {
    forall|i: int| 0 <= i < disk.len() ==> (#[trigger] disk[i]).len() == 512
}

/// What is left of a write does to a chain: the bytes that are still to be written stand
/// at their places afterwards, and no other byte has changed.
pub proof fn lemma_write_places(
    disk: Seq<Seq<u8>>,
    bpb: FatBpb,
    chain: Seq<u32>,
    offset: int,
    data: Seq<u8>,
    done: int,
)
    requires
        bpb.wf(),
        sectors_distinct(bpb, chain),
        full_sectors(disk),
        forall|k: int|
            in_write(offset, room_for(bpb, chain, offset, data.len() as int), k) ==> 0
                <= #[trigger] chain_lba(bpb, chain, k) < disk.len(),
        0 <= offset,
        0 <= done <= room_for(bpb, chain, offset, data.len() as int),
        0 < done < data.len() ==> (offset + done) % 512 == 0,
    ensures
        ({
            let (after, written) = write_from(disk, bpb, chain, offset, data, done);
            let n = room_for(bpb, chain, offset, data.len() as int);
            &&& written == n
            &&& after.len() == disk.len()
            &&& full_sectors(after)
            &&& kept_outside(disk, after, bpb, chain, offset, n)
            &&& forall|j: int|
                0 <= j < sectors_in(bpb, chain) * 512 && 0 <= chain_lba(bpb, chain, j / 512)
                    < disk.len() ==> #[trigger] chain_bytes(after, bpb, chain)[j] == if offset + done
                    <= j < offset + n {
                    data[j - offset]
                } else {
                    chain_bytes(disk, bpb, chain)[j]
                }
        }),
    decreases data.len() - done,
{
    let total = sectors_in(bpb, chain);
    let n = room_for(bpb, chain, offset, data.len() as int);
    let k = (offset + done) / 512;
    let (after, written) = write_from(disk, bpb, chain, offset, data, done);
    if !(k >= total || done >= data.len()) {
        let into = (offset + done) % 512;
        let count = min(512 - into, data.len() - done);
        let lba = chain_lba(bpb, chain, k);
        let next = disk.update(
            lba,
            bytes::overlay(disk[lba], into, data.subrange(done, done + count)),
        );
        assert(done < n);
        assert(done + count <= n) by {
            assert(offset + done + count <= (k + 1) * 512);
        }
        assert(in_write(offset, n, k));
        assert(0 <= lba < disk.len());
        lemma_write_places(next, bpb, chain, offset, data, done + count);
        assert forall|i: int|
            0 <= i < disk.len() && (forall|m: int|
                in_write(offset, n, m) ==> i != #[trigger] chain_lba(bpb, chain, m))
            implies #[trigger] after[i] == disk[i] by {
            assert(i != chain_lba(bpb, chain, k));
            assert(after[i] == next[i]);
        }
        assert forall|j: int|
            0 <= j < total * 512 && 0 <= chain_lba(bpb, chain, j / 512) < disk.len()
            implies #[trigger] chain_bytes(after, bpb, chain)[j] == if offset + done <= j < offset
            + n {
            data[j - offset]
        } else {
            chain_bytes(disk, bpb, chain)[j]
        } by {
            let m = j / 512;
            assert(j == m * 512 + j % 512);
            assert(chain_bytes(next, bpb, chain)[j] == next[chain_lba(bpb, chain, m)][j % 512]);
            assert(chain_bytes(disk, bpb, chain)[j] == disk[chain_lba(bpb, chain, m)][j % 512]);
            if m == k {
                assert(next[lba] == bytes::overlay(
                    disk[lba],
                    into,
                    data.subrange(done, done + count),
                ));
            } else {
                assert(chain_lba(bpb, chain, m) != lba);
            }
        }
    } else {
        assert(done == n);
    }
}

/// What is written at a byte of a chain stands there afterwards, as far as the chain has
/// room for it. No other byte of the chain has changed, nor has any other sector.
pub proof fn law_data_read_after_write(
    disk: Seq<Seq<u8>>,
    bpb: FatBpb,
    chain: Seq<u32>,
    offset: int,
    data: Seq<u8>,
)
    requires
        bpb.wf(),
        proper_chain(disk, bpb, chain),
        0 <= offset,
    ensures
        ({
            let (after, written) = write_from(disk, bpb, chain, offset, data, 0);
            &&& written == room_for(bpb, chain, offset, data.len() as int)
            &&& proper_chain(after, bpb, chain)
            &&& chain_bytes(after, bpb, chain) == bytes::overlay(
                chain_bytes(disk, bpb, chain),
                offset,
                data.take(written),
            )
            &&& kept_outside(disk, after, bpb, chain, offset, written)
        }),
{
    lemma_sectors_distinct(bpb, chain);
    let total = sectors_in(bpb, chain);
    assert(0 <= total) by (nonlinear_arith)
        requires
            total == chain.len() * bpb.sectors_per_cluster,
            0 <= bpb.sectors_per_cluster,
    ;
    assert forall|k: int|
        in_write(offset, room_for(bpb, chain, offset, data.len() as int), k) implies 0
        <= #[trigger] chain_lba(bpb, chain, k) < disk.len() by {
        assert(0 <= k < total);
    }
    lemma_write_places(disk, bpb, chain, offset, data, 0);
    let (after, written) = write_from(disk, bpb, chain, offset, data, 0);
    assert forall|j: int| 0 <= j < total * 512 implies 0 <= #[trigger] chain_lba(
        bpb,
        chain,
        j / 512,
    ) < disk.len() by {
        assert(0 <= j / 512 < total);
    }
    assert(chain_bytes(after, bpb, chain) =~= bytes::overlay(
        chain_bytes(disk, bpb, chain),
        offset,
        data.take(written),
    ));
}

} // verus!
