//! Writing a changed file back to its volume.
use vstd::prelude::*;

use crate::block::registry::BlockDeviceRegistry;
use crate::block::BlockDevice;
use crate::bytes;
use crate::fat32::bpb::FatBpb;
use crate::fat32::data;
use crate::fat32::dir;
use crate::fat32::entry;
use crate::fat32::entry::FatDirEntry;
use crate::fat32::file::FatFileHandle;
use crate::fat32::inode;
use crate::fat32::table;
use crate::serial;
use crate::vfs::{Errnos, VfsError};

verus! {

/// The cluster that an allocation with a given hint takes.
pub open spec fn next_free(disk: Seq<Seq<u8>>, bpb: FatBpb, hint: u32) -> Option<u32> {
    if exists|c: u32| #[trigger]
        table::search_reaches(disk, bpb, hint, c) && table::fat_get(disk, bpb, c) == 0 {
        Some(
            choose|c: u32| #[trigger]
                table::search_reaches(disk, bpb, hint, c) && table::fat_get(disk, bpb, c) == 0,
        )
    } else {
        None
    }
}

pub proof fn lemma_next_free_unique(disk: Seq<Seq<u8>>, bpb: FatBpb, hint: u32, c: u32)
    requires
        table::search_reaches(disk, bpb, hint, c),
        table::fat_get(disk, bpb, c) == 0,
    ensures
        next_free(disk, bpb, hint) == Some(c),
{
    let d = choose|d: u32| #[trigger]
        table::search_reaches(disk, bpb, hint, d) && table::fat_get(disk, bpb, d) == 0;
    assert(table::search_reaches(disk, bpb, hint, d) && table::fat_get(disk, bpb, d) == 0);
    assert(c == d);
}

/// Where the search for the cluster behind `last` starts.
pub open spec fn hint_after(last: u32) -> u32 {
    if last >= 2 {
        (last + 1) as u32
    } else {
        2
    }
}

/// The disk once cluster `fresh` has been allocated and linked behind `last`, if there
/// is a `last`.
pub open spec fn linked(disk: Seq<Seq<u8>>, bpb: FatBpb, last: u32, fresh: u32) -> Seq<Seq<u8>> {
    let taken = table::fat_set(disk, bpb, fresh, bpb.end_mark());
    table::fat_set(
        if last >= 2 {
            table::fat_set(taken, bpb, last, fresh)
        } else {
            taken
        },
        bpb,
        fresh,
        bpb.end_mark(),
    )
}

/// The last cluster of a chain; 0 where there is none.
pub open spec fn last_of(chain: Seq<u32>) -> u32 {
    if chain.len() > 0 {
        chain.last()
    } else {
        0
    }
}

/// The disk and the clusters of a file once it has `needed` clusters, the next one linked
/// behind `last` and each further one behind the one before; `None` where the volume runs
/// out of clusters.
pub open spec fn grow(
    disk: Seq<Seq<u8>>,
    bpb: FatBpb,
    chain: Seq<u32>,
    last: u32,
    needed: int,
) -> Option<(Seq<Seq<u8>>, Seq<u32>)>
    decreases needed - chain.len(),
{
    if chain.len() >= needed {
        Some((disk, chain))
    } else {
        match next_free(disk, bpb, hint_after(last)) {
            Some(c) => grow(linked(disk, bpb, last, c), bpb, chain.push(c), c, needed),
            None => None,
        }
    }
}

/// Whether the search for a cluster of a growing file meets a table entry that cannot be
/// read, or a free one that cannot be written.
pub open spec fn grow_stuck<D: BlockDevice>(
    device: &D,
    disk: Seq<Seq<u8>>,
    bpb: FatBpb,
    chain: Seq<u32>,
    last: u32,
    needed: int,
) -> bool
    decreases needed - chain.len(),
{
    if chain.len() >= needed {
        false
    } else {
        ||| exists|c: u32|
            {
                &&& #[trigger] table::search_reaches(disk, bpb, hint_after(last), c)
                &&& !table::entry_readable(device, bpb, c) || (table::fat_get(disk, bpb, c) == 0
                    && !table::entry_writable(device, bpb, c))
            }
        ||| next_free(disk, bpb, hint_after(last)) matches Some(c) && grow_stuck(
            device,
            linked(disk, bpb, last, c),
            bpb,
            chain.push(c),
            c,
            needed,
        )
    }
}

/// Whether a growing file comes to a cluster whose table entry cannot be written, so that
/// the next one cannot be linked behind it. The file then goes without further clusters.
pub open spec fn grow_cut<D: BlockDevice>(
    device: &D,
    disk: Seq<Seq<u8>>,
    bpb: FatBpb,
    chain: Seq<u32>,
    last: u32,
    needed: int,
) -> bool
    decreases needed - chain.len(),
{
    if chain.len() >= needed {
        false
    } else {
        ||| last >= 2 && !table::entry_writable(device, bpb, last)
        ||| next_free(disk, bpb, hint_after(last)) matches Some(c) && grow_cut(
            device,
            linked(disk, bpb, last, c),
            bpb,
            chain.push(c),
            c,
            needed,
        )
    }
}

/// One more cluster than a chain has grown to.
proof fn lemma_grow_step(
    disk: Seq<Seq<u8>>,
    bpb: FatBpb,
    chain: Seq<u32>,
    last: u32,
    now: Seq<Seq<u8>>,
    longer: Seq<u32>,
    end: u32,
    c: u32,
)
    requires
        chain.len() <= longer.len(),
        grow(disk, bpb, chain, last, longer.len() as int) == Some((now, longer)),
        end == if longer.len() == chain.len() {
            last
        } else {
            longer.last()
        },
        next_free(now, bpb, hint_after(end)) == Some(c),
    ensures
        grow(disk, bpb, chain, last, longer.len() as int + 1) == Some(
            (linked(now, bpb, end, c), longer.push(c)),
        ),
    decreases longer.len() - chain.len(),
{
    if chain.len() < longer.len() {
        let d = next_free(disk, bpb, hint_after(last)).unwrap();
        let next = linked(disk, bpb, last, d);
        if chain.len() + 1 == longer.len() {
            assert(grow(next, bpb, chain.push(d), d, longer.len() as int) == Some(
                (next, chain.push(d)),
            ));
            assert(longer == chain.push(d));
        }
        lemma_grow_step(next, bpb, chain.push(d), d, now, longer, end, c);
    } else {
        let next = linked(now, bpb, end, c);
        assert(grow(next, bpb, longer.push(c), c, longer.len() as int + 1) == Some(
            (next, longer.push(c)),
        ));
    }
}

/// Whether a sector holds the table entry of some cluster.
pub open spec fn table_sector(bpb: FatBpb, i: int) -> bool {
    exists|c: u32| #[trigger] table::holds_entry(bpb, c, i)
}

/// Whether two disks differ at most in sectors that hold table entries.
pub open spec fn tables_only(a: Seq<Seq<u8>>, b: Seq<Seq<u8>>, bpb: FatBpb) -> bool {
    &&& a.len() == b.len()
    &&& forall|i: int| 0 <= i < a.len() && !table_sector(bpb, i) ==> #[trigger] b[i] == a[i]
}

pub proof fn lemma_tables_only(a: Seq<Seq<u8>>, b: Seq<Seq<u8>>, bpb: FatBpb, clusters: Seq<u32>)
    requires
        table::kept_but(a, b, bpb, clusters),
    ensures
        tables_only(a, b, bpb),
{
    assert forall|i: int| 0 <= i < a.len() && !table_sector(bpb, i) implies #[trigger] b[i]
        == a[i] by {
        assert forall|j: int| 0 <= j < clusters.len() implies !table::holds_entry(
            bpb,
            #[trigger] clusters[j],
            i,
        ) by {}
    }
}

pub proof fn lemma_set_tables_only<D: BlockDevice>(
    device: &D,
    disk: Seq<Seq<u8>>,
    bpb: FatBpb,
    cluster: u32,
    value: u32,
)
    requires
        table::entry_writable(device, bpb, cluster),
        device.sectors().len() == disk.len(),
    ensures
        tables_only(disk, table::fat_set(disk, bpb, cluster, value), bpb),
{
    let one = seq![cluster];
    assert(one[0] == cluster);
    table::lemma_set_kept(disk, bpb, cluster, value, bpb.num_fats as nat, one, 0);
    lemma_tables_only(disk, table::fat_set(disk, bpb, cluster, value), bpb, one);
}

/// How growing a file ended.
#[derive(Clone, Copy, PartialEq, Eq, Structural)]
enum GrowEnd {
    Whole,
    /// A cluster could not be linked.
    Cut,
    /// No cluster was allocated.
    Failed(VfsError),
}

/// Allocates clusters until the file has `needed` of them. A cluster that cannot be linked
/// ends the growth early.
fn grow_chain<D: BlockDevice>(
    device: &mut D,
    bpb: &FatBpb,
    chain: &mut Vec<u32>,
    last: u32,
    needed: usize,
    out: &mut Vec<u8>,
) -> (r: GrowEnd)
    requires
        old(device).wf(),
        last < u32::MAX,
        forall|i: int| 0 <= i < old(chain)@.len() ==> 2 <= #[trigger] old(chain)@[i],
    ensures
        table::same_geometry(old(device), final(device)),
        tables_only(old(device).sectors(), final(device).sectors(), *bpb),
        forall|i: int| 0 <= i < final(chain)@.len() ==> 2 <= #[trigger] final(chain)@[i],
        old(chain)@.len() <= final(chain)@.len(),
        forall|i: int|
            0 <= i < old(chain)@.len() ==> final(chain)@[i] == #[trigger] old(chain)@[i],
        final(out)@ == table::search_log(old(out)@, r == GrowEnd::Failed(VfsError::NoSpace)),
        final(chain)@.len() <= old(chain)@.len() || final(chain)@.len() <= needed,
        r is Whole ==> final(chain)@.len() >= needed,
        r matches GrowEnd::Failed(e) ==> e == VfsError::NoSpace || e == VfsError::IoError,
        ({
            let disk = old(device).sectors();
            let chain0 = old(chain)@;
            old(device).reliable() ==> {
                &&& grow(disk, *bpb, chain0, last, final(chain)@.len() as int) matches Some((_, c))
                    && c == final(chain)@
                &&& match r {
                    GrowEnd::Whole => grow(disk, *bpb, chain0, last, needed as int) == Some(
                        (final(device).sectors(), final(chain)@),
                    ),
                    GrowEnd::Cut => grow_cut(
                        old(device),
                        disk,
                        *bpb,
                        chain0,
                        last,
                        needed as int,
                    ),
                    GrowEnd::Failed(VfsError::NoSpace) => grow(
                        disk,
                        *bpb,
                        chain0,
                        last,
                        needed as int,
                    ) is None,
                    GrowEnd::Failed(_) => grow_stuck(
                        old(device),
                        disk,
                        *bpb,
                        chain0,
                        last,
                        needed as int,
                    ),
                }
            }
        }),
{
    let ghost before = *device;
    let ghost chain0 = chain@;
    let ghost n = needed as int;
    let mut last_cluster: u32 = last;
    while chain.len() < needed
        invariant
            before == *old(device),
            before.wf(),
            n == needed,
            table::same_geometry(&before, device),
            chain0 == old(chain)@,
            chain0.len() <= chain@.len(),
            forall|i: int| 0 <= i < chain0.len() ==> chain@[i] == #[trigger] chain0[i],
            chain@.len() <= chain0.len() || chain@.len() <= needed,
            out@ == old(out)@,
            last_cluster < u32::MAX,
            last_cluster == if chain@.len() == chain0.len() {
                last
            } else {
                chain@.last()
            },
            forall|i: int| 0 <= i < chain@.len() ==> 2 <= #[trigger] chain@[i],
            tables_only(before.sectors(), device.sectors(), *bpb),
            before.reliable() ==> {
                &&& grow(before.sectors(), *bpb, chain0, last, chain@.len() as int) == Some(
                    (device.sectors(), chain@),
                )
                &&& grow(before.sectors(), *bpb, chain0, last, n) == grow(
                    device.sectors(),
                    *bpb,
                    chain@,
                    last_cluster,
                    n,
                )
                &&& grow_cut(&before, device.sectors(), *bpb, chain@, last_cluster, n)
                    ==> grow_cut(&before, before.sectors(), *bpb, chain0, last, n)
                &&& grow_stuck(&before, device.sectors(), *bpb, chain@, last_cluster, n)
                    ==> grow_stuck(&before, before.sectors(), *bpb, chain0, last, n)
            },
        decreases needed - chain@.len(),
    {
        let hint: u32 = if last_cluster >= 2 {
            last_cluster + 1
        } else {
            2
        };
        let ghost now = *device;
        match table::allocate_cluster(device, bpb, hint, out) {
            Ok(new_cl) => {
                let ghost taken = device.sectors();
                proof {
                    lemma_next_free_unique(now.sectors(), *bpb, hint, new_cl);
                    lemma_reached_bound(now.sectors(), *bpb, hint, new_cl);
                    lemma_set_tables_only(&before, now.sectors(), *bpb, new_cl, bpb.end_mark());
                    if before.reliable() {
                        lemma_grow_step(
                            before.sectors(),
                            *bpb,
                            chain0,
                            last,
                            now.sectors(),
                            chain@,
                            last_cluster,
                            new_cl,
                        );
                    }
                }
                if last_cluster >= 2 {
                    match table::extend_chain(device, bpb, last_cluster, new_cl) {
                        Ok(_) => {
                            proof {
                                lemma_set_tables_only(&before, taken, *bpb, last_cluster, new_cl);
                                lemma_set_tables_only(
                                    &before,
                                    table::fat_set(taken, *bpb, last_cluster, new_cl),
                                    *bpb,
                                    new_cl,
                                    bpb.end_mark(),
                                );
                            }
                        },
                        Err(_) => {
                            proof {
                                lemma_tables_only(
                                    taken,
                                    device.sectors(),
                                    *bpb,
                                    seq![last_cluster, new_cl],
                                );
                            }
                            return GrowEnd::Cut;
                        },
                    }
                } else {
                    match table::write_fat_entry(device, bpb, new_cl, bpb.eoc()) {
                        Ok(_) => {
                            proof {
                                lemma_set_tables_only(&before, taken, *bpb, new_cl, bpb.end_mark());
                            }
                        },
                        Err(_) => {
                            proof {
                                lemma_tables_only(taken, device.sectors(), *bpb, seq![new_cl]);
                            }
                        },
                    }
                }
                chain.push(new_cl);
                last_cluster = new_cl;
            },
            Err(e) => {
                proof {
                    if now.sectors() != device.sectors() {
                        let c = choose|c: u32|
                            {
                                &&& #[trigger] table::search_reaches(now.sectors(), *bpb, hint, c)
                                &&& table::fat_get(now.sectors(), *bpb, c) == 0
                                &&& table::kept_but(
                                    now.sectors(),
                                    device.sectors(),
                                    *bpb,
                                    seq![c],
                                )
                            };
                        lemma_tables_only(now.sectors(), device.sectors(), *bpb, seq![c]);
                    }
                    if e == VfsError::IoError && before.reliable() {
                        let c = choose|c: u32| table::search_fails_at(&now, *bpb, hint, c);
                        assert(table::search_fails_at(&now, *bpb, hint, c));
                        assert(table::search_reaches(
                            now.sectors(),
                            *bpb,
                            hint_after(last_cluster),
                            c,
                        ));
                    }
                }
                return GrowEnd::Failed(e);
            },
        }
    }
    GrowEnd::Whole
}

proof fn lemma_reached_bound(disk: Seq<Seq<u8>>, bpb: FatBpb, hint: u32, c: u32)
    requires
        table::search_reaches(disk, bpb, hint, c),
    ensures
        c < u32::MAX,
{
}

/// Bytes in the sectors of a cluster.
pub open spec fn cluster_bytes(bpb: FatBpb) -> int {
    bpb.sectors_per_cluster * 512
}

/// How many bytes a cluster is reckoned to hold: what the boot sector says, but no more than
/// there is in its sectors.
pub open spec fn cluster_len(bpb: FatBpb) -> int {
    data::min(bpb.bytes_per_cluster as int, cluster_bytes(bpb))
}

/// Clusters that hold `size` bytes.
pub open spec fn clusters_for(bpb: FatBpb, size: int) -> int {
    (size + cluster_len(bpb) - 1) / cluster_len(bpb)
}

proof fn lemma_clusters_fit(bpb: FatBpb, size: u32)
    requires
        bpb.wf(),
    ensures
        0 <= clusters_for(bpb, size as int) <= u32::MAX,
        size > 0 ==> clusters_for(bpb, size as int) > 0,
{
    let bpc = cluster_len(bpb);
    let q = clusters_for(bpb, size as int);
    vstd::arithmetic::div_mod::lemma_fundamental_div_mod(size + bpc - 1, bpc);
    assert(0 <= q <= u32::MAX && (size > 0 ==> q > 0)) by (nonlinear_arith)
        requires
            bpc >= 1,
            0 <= size <= u32::MAX,
            size + bpc - 1 == bpc * q + (size + bpc - 1) % bpc,
            0 <= (size + bpc - 1) % bpc < bpc,
    ;
}

/// The clusters that a file is known to have, and the cluster that the next one is linked
/// behind. Of a chain that cannot be read only the first cluster is known.
pub open spec fn known_chain(disk: Seq<Seq<u8>>, bpb: FatBpb, first_cluster: u32, readable: bool) -> (
    Seq<u32>,
    u32,
) {
    if readable {
        let chain = table::cluster_chain(disk, bpb, first_cluster);
        (chain, last_of(chain))
    } else {
        (Seq::empty(), first_cluster)
    }
}

/// The disk and the clusters of a file that has been given `needed` clusters.
pub open spec fn grown_to(
    disk: Seq<Seq<u8>>,
    bpb: FatBpb,
    first_cluster: u32,
    readable: bool,
    needed: int,
) -> Option<(Seq<Seq<u8>>, Seq<u32>)> {
    let (chain, last) = known_chain(disk, bpb, first_cluster, readable);
    grow(disk, bpb, chain, last, needed)
}

/// The disk and the clusters of a file that has been given as many as its contents need.
pub open spec fn grown_file(
    disk: Seq<Seq<u8>>,
    bpb: FatBpb,
    first_cluster: u32,
    readable: bool,
    contents: Seq<u8>,
) -> Option<(Seq<Seq<u8>>, Seq<u32>)> {
    grown_to(
        disk,
        bpb,
        first_cluster,
        readable,
        clusters_for(bpb, (contents.len() as u32) as int),
    )
}

/// The disk and the first cluster of a file once its contents have been written, before
/// its entry is; `None` where the volume runs out of clusters. An empty file gives its
/// clusters back.
pub open spec fn contents_flushed(
    disk: Seq<Seq<u8>>,
    bpb: FatBpb,
    first_cluster: u32,
    readable: bool,
    contents: Seq<u8>,
) -> Option<(Seq<Seq<u8>>, u32)> {
    if contents.len() as u32 > 0 {
        match grown_file(disk, bpb, first_cluster, readable, contents) {
            Some((after, chain)) => Some(
                (
                    data::write_from(after, bpb, chain, 0, contents, 0).0,
                    if readable {
                        chain[0]
                    } else {
                        first_cluster
                    },
                ),
            ),
            None => None,
        }
    } else {
        Some((table::fat_fill(disk, bpb, table::cluster_chain(disk, bpb, first_cluster), 0), 0))
    }
}

/// Whether the table entries of all the clusters that a file has can be read.
pub open spec fn file_chain_readable<D: BlockDevice>(
    device: &D,
    bpb: FatBpb,
    first_cluster: u32,
) -> bool {
    table::chain_readable(
        device,
        bpb,
        table::cluster_chain(device.sectors(), bpb, first_cluster),
    )
}

/// Whether writing the contents of a file meets a sector that does not exist.
pub open spec fn contents_blocked<D: BlockDevice>(
    device: &D,
    bpb: FatBpb,
    first_cluster: u32,
    contents: Seq<u8>,
) -> bool {
    let disk = device.sectors();
    let had = table::cluster_chain(disk, bpb, first_cluster);
    let size = contents.len() as u32;
    let needed = clusters_for(bpb, size as int);
    ||| !file_chain_readable(device, bpb, first_cluster)
    ||| if size > 0 {
        ||| grow_stuck(device, disk, bpb, had, last_of(had), needed)
        ||| grow_cut(device, disk, bpb, had, last_of(had), needed)
        ||| grown_file(disk, bpb, first_cluster, true, contents) matches Some((_, chain))
            && !data::write_reach(device, bpb, chain, 0, contents.len() as int)
    } else {
        !table::chain_writable(device, bpb, had)
    }
}

/// Whether a sector belongs to a chain.
pub open spec fn in_chain(bpb: FatBpb, chain: Seq<u32>, i: int) -> bool {
    exists|k: int|
        0 <= k < data::sectors_in(bpb, chain) && i == #[trigger] data::chain_lba(bpb, chain, k)
}

/// How writing the contents of a file ended.
#[derive(Debug, Clone, Copy, PartialEq, Eq, Structural)]
pub enum ContentsEnd {
    /// The contents are written, as far as the clusters hold them. The first cluster.
    Written(u32),
    /// No further cluster was allocated.
    NoCluster(VfsError),
    /// The clusters are there, the first one as given, but a transfer failed.
    NotWritten(u32),
}

/// Whether a sector is one that writing the contents of a file is for: it holds table
/// entries, or belongs to the clusters that the file has then. Where transfers can fail, a
/// table sector that was lost in one can lead to any cluster.
pub open spec fn contents_place<D: BlockDevice>(
    device: &D,
    bpb: FatBpb,
    first_cluster: u32,
    contents: Seq<u8>,
    i: int,
) -> bool {
    ||| table_sector(bpb, i)
    ||| exists|readable: bool, n: int|
        {
            &&& n <= data::max(
                clusters_for(bpb, (contents.len() as u32) as int),
                known_chain(device.sectors(), bpb, first_cluster, readable).0.len() as int,
            )
            &&& #[trigger] grown_to(
                device.sectors(),
                bpb,
                first_cluster,
                readable,
                n,
            ) matches Some((_, chain)) && in_chain(bpb, chain, i)
        }
    ||| !device.reliable() && i >= bpb.base_sector + bpb.data_start_sector
}

/// Whether two states of a device differ at most in such sectors.
pub open spec fn contents_kept<D: BlockDevice>(
    a: &D,
    b: &D,
    bpb: FatBpb,
    first_cluster: u32,
    contents: Seq<u8>,
) -> bool {
    forall|i: int|
        0 <= i < a.sectors().len() && !contents_place(a, bpb, first_cluster, contents, i)
            ==> #[trigger] b.sectors()[i] == a.sectors()[i]
}

/// What writing the contents of a file does to a device. A chain that cannot be read is
/// replaced by new clusters behind the first one, and a chain that cannot be extended takes
/// what it has room for.
pub open spec fn contents_outcome<D: BlockDevice>(
    a: &D,
    b: &D,
    bpb: FatBpb,
    first_cluster: u32,
    contents: Seq<u8>,
    end: ContentsEnd,
) -> bool {
    let disk = a.sectors();
    let size = contents.len() as u32;
    let had = table::cluster_chain(disk, bpb, first_cluster);
    let readable = file_chain_readable(a, bpb, first_cluster);
    let goal = contents_flushed(disk, bpb, first_cluster, readable, contents);
    let grown = grown_file(disk, bpb, first_cluster, readable, contents);
    let (known, last) = known_chain(disk, bpb, first_cluster, readable);
    let needed = clusters_for(bpb, size as int);
    let cut = grow_cut(a, disk, bpb, known, last, needed);
    &&& table::same_geometry(a, b)
    &&& if size > 0 {
        &&& contents_kept(a, b, bpb, first_cluster, contents)
        &&& match end {
            ContentsEnd::Written(first) => {
                &&& 2 <= first_cluster < bpb.end_mark() ==> first == first_cluster
                &&& a.reliable() ==> cut || goal == Some((b.sectors(), first))
            },
            ContentsEnd::NoCluster(e) => {
                &&& e == VfsError::NoSpace || e == VfsError::IoError
                &&& tables_only(disk, b.sectors(), bpb)
                &&& a.reliable() ==> if e == VfsError::NoSpace {
                    grown is None
                } else {
                    grow_stuck(a, disk, bpb, known, last, needed)
                }
            },
            ContentsEnd::NotWritten(first) => {
                &&& 2 <= first_cluster < bpb.end_mark() ==> first == first_cluster
                &&& a.reliable() ==> cut || (grown matches Some((_, chain)) && {
                    &&& !data::write_reach(a, bpb, chain, 0, contents.len() as int)
                    &&& readable ==> first == chain[0]
                })
            },
        }
    } else {
        match end {
            ContentsEnd::Written(first) => {
                ||| {
                    &&& first == 0
                    &&& readable && table::chain_writable(a, bpb, had)
                    &&& b.sectors() == table::fat_fill(disk, bpb, had, 0)
                }
                ||| {
                    &&& first == first_cluster
                    &&& a.reliable() ==> !(readable && table::chain_writable(a, bpb, had))
                    &&& table::kept_but(disk, b.sectors(), bpb, had)
                }
            },
            _ => false,
        }
    }
}

/// The console once the contents of a file have been written, or not.
pub open spec fn contents_log(out: Seq<u8>, end: ContentsEnd, errnos: Errnos) -> Seq<u8> {
    match end {
        ContentsEnd::Written(_) => out,
        ContentsEnd::NoCluster(e) => table::search_log(out, e == VfsError::NoSpace)
            + serial::text("[FAT] close: alloc failed: "@) + serial::hex_text(errnos.number(e))
            + serial::line_end(),
        ContentsEnd::NotWritten(_) => out + serial::text("[FAT] close: write data failed\n"@),
    }
}

/// Writes the contents of a file to its clusters.
fn write_contents<D: BlockDevice>(
    device: &mut D,
    bpb: &FatBpb,
    first_cluster: u32,
    contents: &[u8],
    errnos: &Errnos,
    out: &mut Vec<u8>,
) -> (r: ContentsEnd)
    requires
        old(device).wf(),
        bpb.wf(),
    ensures
        contents_outcome(old(device), final(device), *bpb, first_cluster, contents@, r),
        final(out)@ == contents_log(old(out)@, r, *errnos),
{
    let ghost before = *device;
    let ghost disk = before.sectors();
    let ghost had = table::cluster_chain(disk, *bpb, first_cluster);
    let new_size: u32 = contents.len() as u32;
    assert(new_size == contents@.len() as u32);
    if new_size == 0 {
        return match table::free_cluster_chain(device, bpb, first_cluster) {
            Ok(_) => ContentsEnd::Written(0),
            Err(_) => ContentsEnd::Written(first_cluster),
        };
    }
    let in_sectors: u32 = bpb.sectors_per_cluster as u32 * 512;
    let bpc: u64 = if bpb.bytes_per_cluster < in_sectors {
        bpb.bytes_per_cluster as u64
    } else {
        in_sectors as u64
    };
    let clusters_needed: usize = ((new_size as u64 + bpc - 1) / bpc) as usize;
    proof {
        lemma_clusters_fit(*bpb, new_size);
        assert(clusters_needed == clusters_for(*bpb, new_size as int));
    }
    let mut chain: Vec<u32> = Vec::new();
    let mut last: u32 = first_cluster;
    let readable: bool;
    match table::read_cluster_chain(device, bpb, first_cluster) {
        Ok(read) => {
            chain = read;
            readable = true;
            let len: usize = chain.len();
            last = if len > 0 {
                chain[len - 1]
            } else {
                0
            };
        },
        Err(_) => {
            readable = false;
        },
    }
    let ghost known = chain@;
    let ghost known_last = last;
    proof {
        assert(readable ==> file_chain_readable(&before, *bpb, first_cluster));
        assert(known =~= known_chain(disk, *bpb, first_cluster, readable).0);
        assert(known_last == known_chain(disk, *bpb, first_cluster, readable).1);
        if readable && known.len() > 0 {
            assert(known_last == known[known.len() - 1]);
        }
    }
    let end: GrowEnd = grow_chain(device, bpb, &mut chain, last, clusters_needed, out);
    let ghost grown = *device;
    match end {
        GrowEnd::Failed(e) => {
            serial::write_str(out, "[FAT] close: alloc failed: ");
            serial::write_hex(out, errnos.number_of(e));
            serial::write_nl(out);
            return ContentsEnd::NoCluster(e);
        },
        _ => {},
    }
    let first: u32 = if readable && chain.len() > 0 {
        chain[0]
    } else {
        first_cluster
    };
    proof {
        if readable && 2 <= first_cluster < bpb.end_mark() {
            assert(known[0] == first_cluster);
        }
    }
    let result = data::write_file_data(device, bpb, &chain, 0, contents);
    proof {
        let n = data::room_for(*bpb, chain@, 0, contents@.len() as int);
        if before.reliable() {
            assert(grown_to(disk, *bpb, first_cluster, readable, chain@.len() as int) matches Some(
                (_, c),
            ) && c == chain@);
        }
        assert forall|i: int|
            0 <= i < disk.len() && !contents_place(&before, *bpb, first_cluster, contents@, i)
            implies #[trigger] device.sectors()[i] == disk[i] by {
            assert forall|k: int| data::in_write(0, n, k) implies i != #[trigger] data::chain_lba(
                *bpb,
                chain@,
                k,
            ) by {
                assert(0 <= k < data::sectors_in(*bpb, chain@));
                if i == data::chain_lba(*bpb, chain@, k) {
                    assert(in_chain(*bpb, chain@, i));
                    lemma_in_data(*bpb, chain@, k);
                }
            }
            assert(device.sectors()[i] == grown.sectors()[i]);
        }
        assert(data::write_reach(&before, *bpb, chain@, 0, contents@.len() as int)
            ==> data::write_reach(&grown, *bpb, chain@, 0, contents@.len() as int));
    }
    match result {
        Ok(_) => ContentsEnd::Written(first),
        Err(_) => {
            serial::write_str(out, "[FAT] close: write data failed\n");
            ContentsEnd::NotWritten(first)
        },
    }
}

/// The sectors of data clusters lie in the data area.
proof fn lemma_in_data(bpb: FatBpb, chain: Seq<u32>, k: int)
    requires
        bpb.wf(),
        forall|i: int| 0 <= i < chain.len() ==> 2 <= #[trigger] chain[i],
        0 <= k < data::sectors_in(bpb, chain),
    ensures
        data::chain_lba(bpb, chain, k) >= bpb.base_sector + bpb.data_start_sector,
{
    let spc = bpb.sectors_per_cluster as int;
    data::lemma_index_bound(k, spc, chain.len() as int);
    let c = chain[k / spc];
    assert(0 <= (c - 2) * spc) by (nonlinear_arith)
        requires
            c >= 2,
            spc > 0,
    ;
    assert(bpb.cluster_lba(c) == bpb.base_sector + bpb.data_start_sector + (c - 2) * spc);
    assert(data::chain_lba(bpb, chain, k) == bpb.cluster_lba(c) + k % spc);
}

/// The disk and the chain of a directory once an entry has been put into its first free
/// slot. A full directory with a chain gets a further cluster; `None` where it cannot.
pub open spec fn entry_added(disk: Seq<Seq<u8>>, bpb: FatBpb, chain: Seq<u32>, new_entry: Seq<u8>) -> Option<
    (Seq<Seq<u8>>, Seq<u32>),
> {
    let raw = dir::held_bytes(disk, bpb, chain);
    match dir::free_slot(raw, 0) {
        Some(at) => Some(
            (
                dir::slot_flushed(disk, bpb, chain, bytes::overlay(raw, at, new_entry), at),
                chain,
            ),
        ),
        None => if chain.len() == 0 {
            None
        } else {
            match next_free(disk, bpb, dir::dir_hint(chain.last())) {
                Some(c) => Some((dir::grown(disk, bpb, chain, c, new_entry), chain.push(c))),
                None => None,
            }
        },
    }
}

/// The disk with a new first cluster and size in the entry with a given name, if there
/// is one.
pub open spec fn entry_pointed(
    disk: Seq<Seq<u8>>,
    bpb: FatBpb,
    chain: Seq<u32>,
    name: Seq<char>,
    first_cluster: u32,
    size: u32,
) -> Seq<Seq<u8>> {
    let raw = dir::held_bytes(disk, bpb, chain);
    match dir::locate(raw, name, true) {
        Some((at, _)) => dir::slot_flushed(
            disk,
            bpb,
            chain,
            dir::pointed(raw, at, first_cluster, size),
            at,
        ),
        None => disk,
    }
}

/// Whether adding an entry to a directory, on a disk as given, meets a sector that the
/// device does not have.
pub open spec fn add_blocked<D: BlockDevice>(
    device: &D,
    disk: Seq<Seq<u8>>,
    bpb: FatBpb,
    chain: Seq<u32>,
) -> bool {
    ||| !dir::held_exists(device, bpb, chain)
    ||| {
        &&& chain.len() > 0
        &&& dir::free_slot(data::chain_bytes(disk, bpb, chain), 0) is None
        &&& exists|c: u32|
            {
                &&& #[trigger] table::search_reaches(disk, bpb, dir::dir_hint(chain.last()), c)
                &&& {
                    ||| !table::entry_readable(device, bpb, c)
                    ||| table::fat_get(disk, bpb, c) == 0 && (!table::entry_writable(
                        device,
                        bpb,
                        c,
                    ) || dir::growth_blocked(device, bpb, chain, c))
                }
            }
    }
}

/// Whether a sector is one that adding an entry, or changing one, is for: a sector of the
/// directory, of the cluster that it grows by, or one with table entries.
pub open spec fn entry_place(
    disk: Seq<Seq<u8>>,
    bpb: FatBpb,
    chain: Seq<u32>,
    adds: bool,
    i: int,
) -> bool {
    ||| if chain.len() == 0 {
        dir::root_start(bpb) <= i < dir::root_start(bpb) + bpb.root_dir_sectors
    } else {
        in_chain(bpb, chain, i)
    }
    ||| adds && chain.len() > 0 && {
        ||| table_sector(bpb, i)
        ||| next_free(disk, bpb, dir::dir_hint(chain.last())) matches Some(c)
            && bpb.cluster_lba(c) <= i < bpb.cluster_lba(c) + bpb.sectors_per_cluster
    }
}

/// Whether two disks differ at most in such sectors.
pub open spec fn entry_kept(
    a: Seq<Seq<u8>>,
    b: Seq<Seq<u8>>,
    bpb: FatBpb,
    chain: Seq<u32>,
    adds: bool,
) -> bool {
    &&& a.len() == b.len()
    &&& forall|i: int|
        0 <= i < a.len() && !entry_place(a, bpb, chain, adds, i) ==> #[trigger] b[i] == a[i]
}

/// The sector of a slot belongs to its directory.
proof fn lemma_slot_place(disk: Seq<Seq<u8>>, bpb: FatBpb, chain: Seq<u32>, at: int, adds: bool)
    requires
        bpb.wf(),
        dir::in_bytes(dir::held_bytes(disk, bpb, chain), at),
    ensures
        entry_place(disk, bpb, chain, adds, dir::slot_lba(bpb, chain, at)),
{
    if chain.len() > 0 {
        assert(0 <= at / 512 < data::sectors_in(bpb, chain));
        assert(in_chain(bpb, chain, data::chain_lba(bpb, chain, at / 512)));
    }
}

/// What adding an entry does, in terms of the disk.
pub proof fn lemma_added<D: BlockDevice>(
    a: &D,
    b: &D,
    bpb: FatBpb,
    chain: Seq<u32>,
    longer: Seq<u32>,
    new_entry: Seq<u8>,
    r: Result<(), VfsError>,
)
    requires
        bpb.wf(),
        dir::add_outcome(a, b, bpb, chain, longer, new_entry, r),
    ensures
        entry_kept(a.sectors(), b.sectors(), bpb, chain, true),
        match r {
            Ok(_) => entry_added(a.sectors(), bpb, chain, new_entry) == Some(
                (b.sectors(), longer),
            ),
            Err(VfsError::NoSpace) => entry_added(a.sectors(), bpb, chain, new_entry) is None,
            Err(e) => e == VfsError::IoError && (a.reliable() ==> add_blocked(
                a,
                a.sectors(),
                bpb,
                chain,
            )),
        },
{
    let disk = a.sectors();
    let raw = dir::held_bytes(disk, bpb, chain);
    assert(table::same_geometry(a, a));
    if let Some(at) = dir::free_slot(raw, 0) {
        if dir::in_bytes(raw, at) {
            lemma_slot_place(disk, bpb, chain, at, true);
        }
    } else if chain.len() > 0 {
        let hint = dir::dir_hint(chain.last());
        if r is Ok {
            let fresh = longer.last();
            lemma_next_free_unique(disk, bpb, hint, fresh);
            lemma_grown_kept(a, bpb, chain, fresh, new_entry);
        } else if b.sectors() != disk {
            let c = choose|c: u32|
                {
                    &&& #[trigger] table::search_reaches(disk, bpb, hint, c)
                    &&& table::fat_get(disk, bpb, c) == 0
                    &&& dir::growth_kept(disk, b.sectors(), bpb, chain.last(), c)
                };
            lemma_next_free_unique(disk, bpb, hint, c);
            lemma_growth_kept(disk, b.sectors(), bpb, chain, c);
        }
    }
    if chain.len() > 0 && dir::append_blocked(a, bpb, chain) {
        lemma_append_blocked(a, bpb, chain);
    }
}

/// What stops an entry from being added to a directory with a chain.
proof fn lemma_append_blocked<D: BlockDevice>(a: &D, bpb: FatBpb, chain: Seq<u32>)
    requires
        bpb.wf(),
        chain.len() > 0,
        dir::append_blocked(a, bpb, chain),
    ensures
        add_blocked(a, a.sectors(), bpb, chain),
{
    let disk = a.sectors();
    let raw = data::chain_bytes(disk, bpb, chain);
    let hint = dir::dir_hint(chain.last());
    if dir::held_exists(a, bpb, chain) {
        match dir::free_slot(raw, 0) {
            Some(at) => {
                dir::lemma_free_slot(raw, 0);
                assert(0 <= at / 512 < data::sectors_in(bpb, chain));
                assert(table::has_sector(a, data::chain_lba(bpb, chain, at / 512)));
            },
            None => {
                if exists|c: u32| #[trigger] table::search_fails_at(a, bpb, hint, c) {
                    let c = choose|c: u32| #[trigger] table::search_fails_at(a, bpb, hint, c);
                    assert(table::search_reaches(disk, bpb, hint, c));
                }
            },
        }
    }
}

proof fn lemma_growth_kept(
    a: Seq<Seq<u8>>,
    b: Seq<Seq<u8>>,
    bpb: FatBpb,
    chain: Seq<u32>,
    fresh: u32,
)
    requires
        chain.len() > 0,
        next_free(a, bpb, dir::dir_hint(chain.last())) == Some(fresh),
        dir::growth_kept(a, b, bpb, chain.last(), fresh),
    ensures
        entry_kept(a, b, bpb, chain, true),
{
    assert forall|i: int| 0 <= i < a.len() && !entry_place(a, bpb, chain, true, i)
        implies #[trigger] b[i] == a[i] by {
        assert(!table_sector(bpb, i));
        assert(!table::holds_entry(bpb, chain.last(), i));
        assert(!table::holds_entry(bpb, fresh, i));
    }
}

proof fn lemma_grown_kept<D: BlockDevice>(
    device: &D,
    bpb: FatBpb,
    chain: Seq<u32>,
    fresh: u32,
    new_entry: Seq<u8>,
)
    requires
        bpb.wf(),
        chain.len() > 0,
        next_free(device.sectors(), bpb, dir::dir_hint(chain.last())) == Some(fresh),
        !dir::growth_blocked(device, bpb, chain, fresh),
    ensures
        entry_kept(
            device.sectors(),
            dir::grown(device.sectors(), bpb, chain, fresh, new_entry),
            bpb,
            chain,
            true,
        ),
{
    let disk = device.sectors();
    let mark = bpb.end_mark();
    let d1 = table::fat_set(disk, bpb, fresh, mark);
    let d2 = table::fat_set(d1, bpb, chain.last(), fresh);
    lemma_set_tables_only(device, disk, bpb, fresh, mark);
    lemma_set_tables_only(device, d1, bpb, chain.last(), fresh);
    lemma_set_tables_only(device, d2, bpb, fresh, mark);
    let raw = data::chain_bytes(disk, bpb, chain);
    let spc = bpb.sectors_per_cluster as int;
    data::lemma_sector_index(bpb, chain.push(fresh), chain.len() as int, 0);
    assert(raw.len() as int / 512 == chain.len() * spc);
    assert(dir::dir_lba(bpb, chain.push(fresh), raw.len() as int) == bpb.cluster_lba(fresh));
}

/// What changing an entry does, in terms of the disk.
pub proof fn lemma_pointed<D: BlockDevice>(
    a: &D,
    b: &D,
    bpb: FatBpb,
    chain: Seq<u32>,
    name: Seq<char>,
    first_cluster: u32,
    size: u32,
    r: Result<(), VfsError>,
)
    requires
        bpb.wf(),
        dir::point_outcome(a, b, bpb, chain, name, first_cluster, size, r),
    ensures
        entry_kept(a.sectors(), b.sectors(), bpb, chain, false),
        b.sectors() == entry_pointed(a.sectors(), bpb, chain, name, first_cluster, size) || (
        a.reliable() ==> !dir::held_exists(a, bpb, chain)),
{
    let raw = dir::held_bytes(a.sectors(), bpb, chain);
    if let Some((at, _)) = dir::locate(raw, name, true) {
        if dir::in_bytes(raw, at) {
            lemma_slot_place(a.sectors(), bpb, chain, at, false);
        }
    }
}

/// The padded 8.3 form of the name of an open file.
pub open spec fn handle_short_name(h: FatFileHandle) -> Option<Seq<u8>> {
    entry::short_name(vstd::utf8::encode_utf8(h.dir_entry_name@))
}

/// Whether writing the entry of a file meets a sector that does not exist.
pub open spec fn entry_blocked<D: BlockDevice>(
    device: &D,
    disk: Seq<Seq<u8>>,
    h: FatFileHandle,
    chain: Seq<u32>,
) -> bool {
    if h.is_new {
        add_blocked(device, disk, h.inner.bpb, chain)
    } else {
        !dir::held_exists(device, h.inner.bpb, chain)
    }
}

/// What writing the entry of a file, last of all, does to the device, to the handle and to
/// the console. A new file stays new where its entry could not be added.
pub open spec fn entry_outcome<D: BlockDevice>(
    a: &D,
    b: &D,
    h: FatFileHandle,
    k: FatFileHandle,
    chain: Seq<u32>,
    first: u32,
    before: Seq<u8>,
    after: Seq<u8>,
) -> bool {
    let bpb = h.inner.bpb;
    let size = h.data@.len() as u32;
    &&& k.dir_chain is Some
    &&& if h.is_new {
        let new_entry = entry::entry_bytes(handle_short_name(h).unwrap(), 0x20, first, size);
        exists|r: Result<(), VfsError>|
            {
                &&& #[trigger] dir::add_outcome(
                    a,
                    b,
                    bpb,
                    chain,
                    k.dir_chain.unwrap()@,
                    new_entry,
                    r,
                )
                &&& k == (FatFileHandle {
                    first_cluster: first,
                    dir_chain: k.dir_chain,
                    disk_size: if r is Ok {
                        size
                    } else {
                        h.disk_size
                    },
                    dirty: r is Err,
                    is_new: r is Err,
                    ..h
                })
                &&& after == table::search_log(
                    before,
                    chain.len() > 0 && r == Err::<(), VfsError>(VfsError::NoSpace),
                )
            }
    } else {
        &&& k == (FatFileHandle { first_cluster: first, disk_size: size, dirty: false, ..h })
        &&& after == before
        &&& exists|r: Result<(), VfsError>| #[trigger]
            dir::point_outcome(a, b, bpb, chain, h.dir_entry_name@, first, size, r)
    }
}

/// What writing a file back does: first its contents are written, then its entry. A file
/// whose contents could not be written stays changed.
pub open spec fn flush_outcome<D: BlockDevice>(
    a: &D,
    b: &D,
    h: FatFileHandle,
    k: FatFileHandle,
    chain: Seq<u32>,
    errnos: Errnos,
    before: Seq<u8>,
    after: Seq<u8>,
) -> bool {
    exists|m: D, end: ContentsEnd|
        {
            &&& #[trigger] contents_outcome(a, &m, h.inner.bpb, h.first_cluster, h.data@, end)
            &&& match end {
                ContentsEnd::Written(first) => entry_outcome(
                    &m,
                    b,
                    h,
                    k,
                    chain,
                    first,
                    before,
                    after,
                ),
                ContentsEnd::NoCluster(_) => {
                    &&& m == *b
                    &&& k == h
                    &&& after == contents_log(before, end, errnos)
                },
                ContentsEnd::NotWritten(first) => {
                    &&& m == *b
                    &&& k == (FatFileHandle { first_cluster: first, ..h })
                    &&& after == contents_log(before, end, errnos)
                },
            }
        }
}

/// What closing a file does. There is nothing to do for a file that was not changed, that
/// was opened without its directory, or that is new and has a name without an 8.3 form.
pub open spec fn close_outcome<D: BlockDevice>(
    a: &D,
    b: &D,
    h: FatFileHandle,
    k: FatFileHandle,
    errnos: Errnos,
    before: Seq<u8>,
    after: Seq<u8>,
) -> bool {
    match h.dir_chain {
        Some(chain) if h.dirty && (h.is_new ==> handle_short_name(h) is Some) => flush_outcome(
            a,
            b,
            h,
            k,
            chain@,
            errnos,
            before,
            after,
        ),
        _ => *b == *a && k == h && after == before,
    }
}

fn close_on<D: BlockDevice>(
    device: &mut D,
    h: &mut FatFileHandle,
    errnos: &Errnos,
    out: &mut Vec<u8>,
)
    requires
        old(device).wf(),
        old(h).inner.bpb.wf(),
    ensures
        close_outcome(
            old(device),
            final(device),
            *old(h),
            *final(h),
            *errnos,
            old(out)@,
            final(out)@,
        ),
        final(device).wf(),
{
    if !h.dirty {
        return ;
    }
    let bpb: FatBpb = h.inner.bpb;
    let ghost before = *device;
    let ghost start = *h;
    if h.dir_chain.is_none() {
        return ;
    }
    let mut name_83: [u8; 11] = [0u8; 11];
    if h.is_new {
        match FatDirEntry::name_to_83(h.dir_entry_name.as_str()) {
            Ok(short) => {
                name_83 = short;
            },
            Err(_) => {
                return ;
            },
        }
    }
    let ghost chain = h.dir_chain.unwrap()@;
    let new_size: u32 = h.data.len() as u32;
    let end: ContentsEnd = write_contents(device, &bpb, h.first_cluster, &h.data, errnos, out);
    let ghost middle = *device;
    let ghost said = out@;
    let first: u32 = match end {
        ContentsEnd::Written(first) => first,
        ContentsEnd::NoCluster(_) => {
            return ;
        },
        ContentsEnd::NotWritten(first) => {
            h.first_cluster = first;
            return ;
        },
    };
    h.first_cluster = first;
    if h.is_new {
        let mut dir_chain: Vec<u32> = match h.dir_chain.take() {
            Some(chain) => chain,
            None => Vec::new(),
        };
        let new_entry = FatDirEntry {
            name: String::new(),
            attributes: 0x20,
            first_cluster: first,
            size: new_size,
            is_lfn: false,
        };
        let result = dir::add_dir_entry(device, &bpb, &mut dir_chain, &new_entry, name_83, out);
        h.dir_chain = Some(dir_chain);
        if result.is_ok() {
            h.is_new = false;
            h.dirty = false;
            h.disk_size = new_size;
        }
        proof {
            let slot = entry::entry_bytes(handle_short_name(start).unwrap(), 0x20, first, new_size);
            assert(dir::bytes_of(new_entry@, name_83@) == slot);
            assert(dir::add_outcome(
                &middle,
                device,
                bpb,
                chain,
                h.dir_chain.unwrap()@,
                slot,
                result,
            ));
            assert(entry_outcome(&middle, device, start, *h, chain, first, said, out@));
        }
    } else {
        match &h.dir_chain {
            Some(dir_chain) => {
                let result = dir::update_dir_entry(
                    device,
                    &bpb,
                    dir_chain,
                    h.dir_entry_name.as_str(),
                    first,
                    new_size,
                );
                assert(dir::point_outcome(
                    &middle,
                    device,
                    bpb,
                    chain,
                    start.dir_entry_name@,
                    first,
                    new_size,
                    result,
                ));
            },
            None => {},
        }
        h.dirty = false;
        h.disk_size = new_size;
        assert(entry_outcome(&middle, device, start, *h, chain, first, said, out@));
    }
}

pub proof fn lemma_held_same<D: BlockDevice>(a: &D, b: &D, bpb: FatBpb, chain: Seq<u32>)
    requires
        table::same_geometry(a, b),
    ensures
        dir::held_exists(a, bpb, chain) == dir::held_exists(b, bpb, chain),
{
    let n = data::sectors_in(bpb, chain);
    assert(data::sectors_exist(a, bpb, chain, n) ==> data::sectors_exist(b, bpb, chain, n));
    assert(data::sectors_exist(b, bpb, chain, n) ==> data::sectors_exist(a, bpb, chain, n));
}

pub proof fn lemma_add_blocked<D: BlockDevice>(a: &D, b: &D, bpb: FatBpb, chain: Seq<u32>)
    requires
        table::same_geometry(a, b),
    ensures
        add_blocked(b, b.sectors(), bpb, chain) ==> add_blocked(a, b.sectors(), bpb, chain),
{
    lemma_held_same(a, b, bpb, chain);
    let disk = b.sectors();
    if add_blocked(b, disk, bpb, chain) && dir::held_exists(b, bpb, chain) {
        let hint = dir::dir_hint(chain.last());
        let c = choose|c: u32|
            {
                &&& #[trigger] table::search_reaches(disk, bpb, hint, c)
                &&& {
                    ||| !table::entry_readable(b, bpb, c)
                    ||| table::fat_get(disk, bpb, c) == 0 && (!table::entry_writable(b, bpb, c)
                        || dir::growth_blocked(b, bpb, chain, c))
                }
            };
        assert(table::entry_writable(a, bpb, c) ==> table::entry_writable(b, bpb, c));
        assert(table::entry_writable(a, bpb, chain.last()) ==> table::entry_writable(
            b,
            bpb,
            chain.last(),
        ));
        assert(table::search_reaches(disk, bpb, hint, c));
    }
}

impl FatFileHandle {
    /// Writes a changed file back to disk: the clusters are allocated, the data written, and
    /// last the entry, which a new file gets only now. What goes wrong is noted on the
    /// console.
    pub fn close<D: BlockDevice>(
        &mut self,
        registry: &mut BlockDeviceRegistry<D>,
        errnos: &Errnos,
        out: &mut Vec<u8>,
    )
        requires
            inode::mounted(old(registry), old(self).inner),
        ensures
            inode::mounted(final(registry), old(self).inner),
            inode::others_same(old(registry), final(registry), old(self).inner.device_id),
            match (
                old(registry).lookup(old(self).inner.device_id),
                final(registry).lookup(old(self).inner.device_id),
            ) {
                (Some(a), Some(b)) => close_outcome(
                    &a,
                    &b,
                    *old(self),
                    *final(self),
                    *errnos,
                    old(out)@,
                    final(out)@,
                ),
                (None, None) => *final(self) == *old(self) && final(out)@ == old(out)@,
                _ => false,
            },
    {
        match registry.get_mut(self.inner.device_id) {
            Some(device) => close_on(device, self, errnos, out),
            None => {},
        }
    }
}

} // verus!
