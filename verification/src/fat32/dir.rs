//! Directories: scanning, looking up, adding, changing and deleting entries.
use vstd::prelude::*;

use crate::block::BlockDevice;
use crate::bytes;
use crate::fat32::bpb::FatBpb;
use crate::fat32::data;
use crate::fat32::entry;
use crate::fat32::entry::{EntryView, FatDirEntry};
use crate::fat32::table;
use crate::vfs::VfsError;

verus! {

/// The `k`-th of the thirteen 16-bit units of a long-name slot.
pub open spec fn lfn_unit(slot: Seq<u8>, k: int) -> u16 {
    if k < 5 {
        bytes::le16(slot, 1 + 2 * k)
    } else if k < 11 {
        bytes::le16(slot, 14 + 2 * (k - 5))
    } else {
        bytes::le16(slot, 28 + 2 * (k - 11))
    }
}

/// The ASCII characters among the units of a long-name slot from the `k`-th on, up to
/// the first terminator.
pub open spec fn lfn_text(slot: Seq<u8>, k: int) -> Seq<char>
    decreases 13 - k,
{
    if k >= 13 || lfn_unit(slot, k) == 0 || lfn_unit(slot, k) == 0xFFFF {
        Seq::empty()
    } else if lfn_unit(slot, k) < 128 {
        seq![lfn_unit(slot, k) as u8 as char] + lfn_text(slot, k + 1)
    } else {
        lfn_text(slot, k + 1)
    }
}

/// Whether a slot holds a part of a long name. A deleted one holds none.
pub open spec fn is_long(slot: Seq<u8>) -> bool {
    slot[11] == 0x0F && slot[0] != 0xE5
}

/// Which part of a long name a slot holds. Bit 6 marks the last part.
pub open spec fn part_number(slot: Seq<u8>) -> u8 {
    slot[0] % 0x40
}

/// Parts of a long name, in the order of their numbers, with a further one in its place.
pub open spec fn with_part(parts: Seq<(u8, Seq<char>)>, number: u8, text: Seq<char>) -> Seq<
    (u8, Seq<char>),
>
    decreases parts.len(),
{
    if parts.len() == 0 || parts.last().0 <= number {
        parts.push((number, text))
    } else {
        with_part(parts.drop_last(), number, text).push(parts.last())
    }
}

/// The long name that parts make up.
pub open spec fn joined(parts: Seq<(u8, Seq<char>)>) -> Seq<char>
    decreases parts.len(),
{
    if parts.len() == 0 {
        Seq::empty()
    } else {
        joined(parts.drop_last()) + parts.last().1
    }
}

/// An entry under the long name that came before it, if there was one.
pub open spec fn renamed(e: EntryView, pending: Seq<(u8, Seq<char>)>) -> EntryView {
    if joined(pending).len() > 0 {
        EntryView { name: joined(pending), ..e }
    } else {
        e
    }
}

/// The parts of a long name that are collected once a slot has been read. They are
/// collected only if `long` is set, and anything but a further part ends the name.
pub open spec fn after_slot(slot: Seq<u8>, pending: Seq<(u8, Seq<char>)>, long: bool) -> Seq<
    (u8, Seq<char>),
> {
    if !is_long(slot) {
        Seq::empty()
    } else if long {
        with_part(pending, part_number(slot), lfn_text(slot, 0))
    } else {
        pending
    }
}

/// The entries of a directory from byte `at` on, each with its position. `pending` are the
/// parts of a long name collected so far.
pub open spec fn scan(raw: Seq<u8>, at: int, pending: Seq<(u8, Seq<char>)>, long: bool) -> Seq<
    (int, EntryView),
>
    decreases raw.len() - at,
{
    if at + 32 > raw.len() || raw[at] == 0 {
        Seq::empty()
    } else {
        let slot = raw.subrange(at, at + 32);
        let rest = scan(raw, at + 32, after_slot(slot, pending, long), long);
        match entry::entry_of(slot) {
            Some(e) if !is_long(slot) => seq![(at, renamed(e, pending))] + rest,
            _ => rest,
        }
    }
}

/// The first of some entries that has a given name.
pub open spec fn first_named(list: Seq<(int, EntryView)>, name: Seq<char>) -> Option<
    (int, EntryView),
>
    decreases list.len(),
{
    if list.len() == 0 {
        None
    } else if list[0].1.name == name {
        Some(list[0])
    } else {
        first_named(list.skip(1), name)
    }
}

/// The entries that a directory lists.
pub open spec fn listing(raw: Seq<u8>) -> Seq<EntryView> {
    let found = scan(raw, 0, Seq::empty(), true);
    Seq::new(found.len(), |i: int| found[i].1)
}

/// Where a directory has the entry with a given name, and the entry.
pub open spec fn locate(raw: Seq<u8>, name: Seq<char>, long: bool) -> Option<(int, EntryView)> {
    first_named(scan(raw, 0, Seq::empty(), long), name)
}

pub open spec fn views(entries: Seq<FatDirEntry>) -> Seq<EntryView> {
    Seq::new(entries.len(), |i: int| entries[i]@)
}

/// A part of a long name.
struct LfnPart {
    number: u8,
    text: String,
}

spec fn parts_of(parts: Seq<LfnPart>) -> Seq<(u8, Seq<char>)> {
    Seq::new(parts.len(), |i: int| (parts[i].number, parts[i].text@))
}

/// The characters of a long-name slot.
fn read_lfn(slot: &[u8]) -> (r: String)
    requires
        slot@.len() == 32,
    ensures
        r@ == lfn_text(slot@, 0),
{
    let mut text = String::new();
    let mut k: usize = 0;
    let mut stopped: bool = false;
    assert(text@ + lfn_text(slot@, 0) =~= lfn_text(slot@, 0));
    while k < 13 && !stopped
        invariant
            k <= 13,
            slot@.len() == 32,
            lfn_text(slot@, 0) == if stopped {
                text@
            } else {
                text@ + lfn_text(slot@, k as int)
            },
        decreases 13 - k + if stopped { 0int } else { 1 },
    {
        let c: u16 = if k < 5 {
            bytes::read_u16(slot, 1 + 2 * k)
        } else if k < 11 {
            bytes::read_u16(slot, 14 + 2 * (k - 5))
        } else {
            bytes::read_u16(slot, 28 + 2 * (k - 11))
        };
        assert(c == lfn_unit(slot@, k as int));
        let ghost had = text@;
        if c == 0 || c == 0xFFFF {
            stopped = true;
            assert(had + lfn_text(slot@, k as int) =~= had);
        } else {
            if c < 128 {
                text.push(c as u8 as char);
            }
            k = k + 1;
            assert(had + lfn_text(slot@, k - 1) =~= text@ + lfn_text(slot@, k as int));
        }
    }
    assert(!stopped ==> text@ + lfn_text(slot@, k as int) =~= text@);
    text
}

/// Where a further part stands.
proof fn lemma_with_part(parts: Seq<(u8, Seq<char>)>, number: u8, text: Seq<char>, at: int)
    requires
        0 <= at <= parts.len(),
        at > 0 ==> parts[at - 1].0 <= number,
        forall|j: int| at <= j < parts.len() ==> (#[trigger] parts[j]).0 > number,
    ensures
        with_part(parts, number, text) == parts.insert(at, (number, text)),
    decreases parts.len(),
{
    if at < parts.len() {
        let front = parts.drop_last();
        assert(parts[parts.len() - 1].0 > number);
        lemma_with_part(front, number, text, at);
        assert(with_part(parts, number, text) =~= parts.insert(at, (number, text)));
    } else {
        assert(parts.push((number, text)) =~= parts.insert(at, (number, text)));
    }
}

/// The parts of a long name are always in the order of their numbers, whatever the order in
/// which they are found.
pub proof fn law_parts_in_order(parts: Seq<(u8, Seq<char>)>, number: u8, text: Seq<char>)
    requires
        forall|i: int, j: int|
            0 <= i < j < parts.len() ==> (#[trigger] parts[i]).0 <= (#[trigger] parts[j]).0,
    ensures
        ({
            let more = with_part(parts, number, text);
            &&& more.len() == parts.len() + 1
            &&& more.contains((number, text))
            &&& forall|i: int, j: int|
                0 <= i < j < more.len() ==> (#[trigger] more[i]).0 <= (#[trigger] more[j]).0
            &&& parts.len() > 0 ==> more.last().0 == if parts.last().0 <= number {
                number
            } else {
                parts.last().0
            }
        }),
    decreases parts.len(),
{
    let more = with_part(parts, number, text);
    if parts.len() == 0 || parts.last().0 <= number {
        assert(more[parts.len() as int] == (number, text));
    } else {
        let front = parts.drop_last();
        law_parts_in_order(front, number, text);
        let inner = with_part(front, number, text);
        let k = choose|k: int| 0 <= k < inner.len() && inner[k] == (number, text);
        assert(more[k] == (number, text));
        assert forall|i: int, j: int| 0 <= i < j < more.len() implies (#[trigger] more[i]).0 <= (
        #[trigger] more[j]).0 by {
            if j == parts.len() {
                assert(inner[i].0 <= inner.last().0);
                if front.len() > 0 {
                    assert(front.last() == parts[parts.len() - 2]);
                    assert(parts[parts.len() - 2].0 <= parts[parts.len() - 1].0);
                }
            } else {
                assert(inner[i].0 <= inner[j].0);
            }
        }
    }
}

/// Collects the part of a long name that a slot holds.
fn add_part(parts: &mut Vec<LfnPart>, slot: &[u8])
    requires
        slot@.len() == 32,
    ensures
        parts_of(final(parts)@) == with_part(
            parts_of(old(parts)@),
            part_number(slot@),
            lfn_text(slot@, 0),
        ),
{
    let number: u8 = slot[0] % 0x40;
    let text: String = read_lfn(slot);
    let ghost before = parts@;
    let ghost view = text@;
    let mut at: usize = parts.len();
    while at > 0 && parts[at - 1].number > number
        invariant
            at <= parts@.len(),
            parts@ == before,
            forall|j: int| at <= j < parts@.len() ==> (#[trigger] parts@[j]).number > number,
        decreases at,
    {
        at = at - 1;
    }
    proof {
        let old_parts = parts_of(before);
        assert forall|j: int| at <= j < old_parts.len() implies (#[trigger] old_parts[j]).0
            > number by {
            assert(before[j].number > number);
        }
        lemma_with_part(old_parts, number, view, at as int);
    }
    parts.insert(at, LfnPart { number, text });
    assert(parts_of(parts@) =~= parts_of(before).insert(at as int, (number, view)));
}

/// The long name that parts make up.
fn join_parts(parts: &Vec<LfnPart>) -> (r: String)
    ensures
        r@ == joined(parts_of(parts@)),
{
    let mut name = String::new();
    let ghost view = parts_of(parts@);
    let mut i: usize = 0;
    assert(name@ =~= joined(view.take(0)));
    while i < parts.len()
        invariant
            i <= parts@.len(),
            view == parts_of(parts@),
            name@ == joined(view.take(i as int)),
        decreases parts@.len() - i,
    {
        name.append(parts[i].text.as_str());
        i = i + 1;
        assert(view.take(i as int).drop_last() =~= view.take(i - 1));
    }
    assert(view.take(i as int) =~= view);
    name
}

/// Reads a slot of a directory: the entry in it, under its long name if it has one.
fn read_slot(slot: &[u8], pending: &mut Vec<LfnPart>, long: bool) -> (r: Option<FatDirEntry>)
    requires
        slot@.len() == 32,
    ensures
        parts_of(final(pending)@) == after_slot(slot@, parts_of(old(pending)@), long),
        match r {
            Some(e) => {
                &&& !is_long(slot@)
                &&& entry::entry_of(slot@) matches Some(x) && e@ == renamed(
                    x,
                    parts_of(old(pending)@),
                )
            },
            None => is_long(slot@) || entry::entry_of(slot@) is None,
        },
{
    if slot[11] == 0x0F && slot[0] != 0xE5 {
        if long {
            add_part(pending, slot);
        }
        return None;
    }
    let name: String = join_parts(pending);
    *pending = Vec::new();
    assert(parts_of(pending@) =~= Seq::empty());
    match FatDirEntry::parse(slot) {
        Some(mut e) => {
            if !name.as_str().is_empty() {
                e.name = name;
            }
            Some(e)
        },
        None => None,
    }
}

/// Parse directory entries from a raw byte buffer.
pub fn parse_dir_entries(raw_data: &[u8]) -> (r: Result<Vec<FatDirEntry>, VfsError>)
    ensures
        r matches Ok(entries) && views(entries@) == listing(raw_data@),
{
    let mut entries: Vec<FatDirEntry> = Vec::new();
    let mut i: usize = 0;
    let mut pending: Vec<LfnPart> = Vec::new();
    let ghost whole = scan(raw_data@, 0, Seq::empty(), true);
    let ghost mut sofar: Seq<(int, EntryView)> = Seq::empty();
    let len: usize = raw_data.len();
    assert(parts_of(pending@) =~= Seq::empty());
    assert(whole =~= sofar + whole);
    while len >= 32 && i <= len - 32 && raw_data[i] != 0x00
        invariant
            len == raw_data@.len(),
            i <= len,
            whole == scan(raw_data@, 0, Seq::empty(), true),
            whole == sofar + scan(raw_data@, i as int, parts_of(pending@), true),
            entries@.len() == sofar.len(),
            forall|k: int| 0 <= k < sofar.len() ==> (#[trigger] entries@[k])@ == sofar[k].1,
        decreases len - i,
    {
        let slot: &[u8] = &raw_data[i..i + 32];
        let ghost had = parts_of(pending@);
        match read_slot(slot, &mut pending, true) {
            Some(e) => {
                let ghost rest = scan(raw_data@, i + 32, parts_of(pending@), true);
                let ghost item = (i as int, e@);
                entries.push(e);
                proof {
                    assert(sofar + (seq![item] + rest) =~= sofar.push(item) + rest);
                    sofar = sofar.push(item);
                }
            },
            None => {},
        }
        i = i + 32;
    }
    proof {
        assert(scan(raw_data@, i as int, parts_of(pending@), true) =~= Seq::empty());
        assert(sofar =~= whole);
        assert(views(entries@) =~= listing(raw_data@));
    }
    Ok(entries)
}

pub proof fn lemma_first_named_push(item: (int, EntryView), rest: Seq<(int, EntryView)>, name: Seq<char>)
    ensures
        first_named(seq![item] + rest, name) == if item.1.name == name {
            Some(item)
        } else {
            first_named(rest, name)
        },
{
    assert((seq![item] + rest).skip(1) =~= rest);
}

/// Finds the first entry with a given name in the bytes of a directory.
pub fn search_dir(raw_data: &[u8], name: &str, long: bool) -> (r: Option<(usize, FatDirEntry)>)
    ensures
        match r {
            Some((offset, e)) => locate(raw_data@, name@, long) == Some((offset as int, e@))
                && offset + 32 <= raw_data@.len(),
            None => locate(raw_data@, name@, long) is None,
        },
{
    let wanted: String = name.to_owned();
    let mut offset: usize = 0;
    let mut pending: Vec<LfnPart> = Vec::new();
    let ghost whole = locate(raw_data@, name@, long);
    let len: usize = raw_data.len();
    assert(parts_of(pending@) =~= Seq::empty());
    while len >= 32 && offset <= len - 32 && raw_data[offset] != 0x00
        invariant
            len == raw_data@.len(),
            offset <= len,
            wanted@ == name@,
            whole == locate(raw_data@, name@, long),
            whole == first_named(
                scan(raw_data@, offset as int, parts_of(pending@), long),
                name@,
            ),
        decreases len - offset,
    {
        let slot: &[u8] = &raw_data[offset..offset + 32];
        match read_slot(slot, &mut pending, long) {
            Some(e) => {
                proof {
                    let rest = scan(raw_data@, offset + 32, parts_of(pending@), long);
                    lemma_first_named_push((offset as int, e@), rest, name@);
                }
                if e.name == wanted {
                    return Some((offset, e));
                }
            },
            None => {},
        }
        offset = offset + 32;
    }
    None
}

/// Read all directory entries from a cluster chain.
pub fn read_dir_entries_from_chain<D: BlockDevice>(device: &D, bpb: &FatBpb, chain: &[u32]) -> (r:
    Result<Vec<FatDirEntry>, VfsError>)
    requires
        device.wf(),
        bpb.wf(),
    ensures
        match r {
            Ok(entries) => {
                &&& data::sectors_exist(device, *bpb, chain@, data::sectors_in(*bpb, chain@))
                &&& views(entries@) == listing(data::chain_bytes(device.sectors(), *bpb, chain@))
            },
            Err(e) => e == VfsError::IoError && (device.reliable() ==> !data::sectors_exist(
                device,
                *bpb,
                chain@,
                data::sectors_in(*bpb, chain@),
            )),
        },
{
    match data::read_chain_bytes(device, bpb, chain) {
        Ok(raw) => parse_dir_entries(&raw),
        Err(e) => Err(e),
    }
}

/// The position of the first free slot (deleted entry 0xE5 or end mark 0x00) from `at` on.
pub open spec fn free_slot(raw: Seq<u8>, at: int) -> Option<int>
    decreases raw.len() - at,
{
    if at + 32 > raw.len() {
        None
    } else if raw[at] == 0xE5 || raw[at] == 0 {
        Some(at)
    } else {
        free_slot(raw, at + 32)
    }
}

/// A free slot lies inside the bytes of its directory.
pub proof fn lemma_free_slot(raw: Seq<u8>, at: int)
    requires
        at >= 0,
    ensures
        free_slot(raw, at) matches Some(slot) ==> at <= slot && slot + 32 <= raw.len(),
    decreases raw.len() - at,
{
    if at + 32 <= raw.len() {
        lemma_free_slot(raw, at + 32);
    }
}

/// Find a free slot in a directory.
pub fn find_free_dir_slot_in_raw(raw_data: &[u8]) -> (r: Option<usize>)
    ensures
        match r {
            Some(at) => free_slot(raw_data@, 0) == Some(at as int) && at + 32 <= raw_data@.len(),
            None => free_slot(raw_data@, 0) is None,
        },
{
    let len: usize = raw_data.len();
    let mut i: usize = 0;
    while len >= 32 && i <= len - 32
        invariant
            len == raw_data@.len(),
            i <= len,
            free_slot(raw_data@, 0) == free_slot(raw_data@, i as int),
        decreases len - i,
    {
        if raw_data[i] == 0xE5 || raw_data[i] == 0x00 {
            return Some(i);
        }
        i = i + 32;
    }
    None
}

/// The LBA of the sector of a directory that holds byte `offset`.
pub open spec fn dir_lba(bpb: FatBpb, chain: Seq<u32>, offset: int) -> int {
    data::chain_lba(bpb, chain, offset / 512)
}

/// The disk with the sector that holds byte `offset` taken from the bytes of the directory.
pub open spec fn flushed(
    disk: Seq<Seq<u8>>,
    bpb: FatBpb,
    chain: Seq<u32>,
    raw: Seq<u8>,
    offset: int,
) -> Seq<Seq<u8>> {
    disk.update(
        dir_lba(bpb, chain, offset),
        data::padded_sector(raw, offset / 512 * 512),
    )
}

/// Whether a slot at `at` lies inside the bytes of a directory.
pub open spec fn in_bytes(raw: Seq<u8>, at: int) -> bool {
    0 <= at && at + 32 <= raw.len()
}

/// Whether two disks differ at most in one sector.
pub open spec fn kept_sector(a: Seq<Seq<u8>>, b: Seq<Seq<u8>>, lba: int) -> bool {
    &&& a.len() == b.len()
    &&& forall|i: int| 0 <= i < a.len() && i != lba ==> #[trigger] b[i] == a[i]
}

/// Writes back the sector of a directory that holds byte `offset`.
fn flush_dir_sector<D: BlockDevice>(
    device: &mut D,
    bpb: &FatBpb,
    dir_chain: &[u32],
    raw_data: &[u8],
    offset: usize,
) -> (r: Result<(), VfsError>)
    requires
        old(device).wf(),
        bpb.wf(),
        offset <= raw_data@.len(),
        (offset as int / 512) < data::sectors_in(*bpb, dir_chain@),
    ensures
        table::same_geometry(old(device), final(device)),
        match r {
            Ok(_) => {
                &&& table::has_sector(old(device), dir_lba(*bpb, dir_chain@, offset as int))
                &&& final(device).sectors() == flushed(
                    old(device).sectors(),
                    *bpb,
                    dir_chain@,
                    raw_data@,
                    offset as int,
                )
            },
            Err(e) => {
                &&& e == VfsError::IoError
                &&& old(device).reliable() ==> !table::has_sector(
                    old(device),
                    dir_lba(*bpb, dir_chain@, offset as int),
                )
                &&& kept_sector(
                    old(device).sectors(),
                    final(device).sectors(),
                    dir_lba(*bpb, dir_chain@, offset as int),
                )
            },
        },
{
    let spc: usize = bpb.sectors_per_cluster as usize;
    let sector: usize = offset / 512;
    let cluster_idx: usize = sector / spc;
    let sector_in_cluster: usize = sector % spc;
    proof {
        data::lemma_index_bound(sector as int, spc as int, dir_chain@.len() as int);
    }
    let lba: u64 = bpb.cluster_to_sector(dir_chain[cluster_idx]) + sector_in_cluster as u64;
    let from: usize = sector * 512;
    let rest: usize = raw_data.len() - from;
    let len: usize = if rest < 512 {
        rest
    } else {
        512
    };
    let mut sector_buf: [u8; 512] = [0u8; 512];
    bytes::copy_range(&mut sector_buf, 0, raw_data, from, len);
    assert(sector_buf@ =~= data::padded_sector(raw_data@, from as int));
    table::write_block(device, lba, &sector_buf)
}

/// The 32 bytes of an entry.
pub open spec fn bytes_of(e: EntryView, name_83: Seq<u8>) -> Seq<u8> {
    entry::entry_bytes(name_83, e.attributes, e.first_cluster, e.size)
}

pub(crate) fn build_entry(entry: &FatDirEntry, name_83: [u8; 11]) -> (buf: [u8; 32])
    ensures
        buf@ == bytes_of(entry@, name_83@),
{
    let mut buf: [u8; 32] = [0u8; 32];
    bytes::copy_range(&mut buf, 0, &name_83, 0, 11);
    buf[11] = entry.attributes;
    buf[20] = (entry.first_cluster / 0x1_0000 % 0x100) as u8;
    buf[21] = (entry.first_cluster / 0x100_0000) as u8;
    buf[26] = (entry.first_cluster % 0x100) as u8;
    buf[27] = (entry.first_cluster / 0x100 % 0x100) as u8;
    buf[28] = (entry.size % 0x100) as u8;
    buf[29] = (entry.size / 0x100 % 0x100) as u8;
    buf[30] = (entry.size / 0x1_0000 % 0x100) as u8;
    buf[31] = (entry.size / 0x100_0000) as u8;
    assert(buf@ =~= entry::entry_bytes(
        name_83@,
        entry.attributes,
        entry.first_cluster,
        entry.size,
    ));
    buf
}

/// Write a 32-byte directory entry at a specific byte offset in the raw data, then flush
/// the sector that holds it.
pub fn write_dir_entry_at_offset<D: BlockDevice>(
    device: &mut D,
    bpb: &FatBpb,
    dir_chain: &[u32],
    raw_data: &mut [u8],
    byte_offset: usize,
    entry: &FatDirEntry,
    name_83: [u8; 11],
) -> (r: Result<(), VfsError>)
    requires
        old(device).wf(),
        bpb.wf(),
        byte_offset + 32 <= old(raw_data)@.len() ==> (byte_offset as int / 512)
            < data::sectors_in(*bpb, dir_chain@),
    ensures
        table::same_geometry(old(device), final(device)),
        ({
            let patched = bytes::overlay(
                old(raw_data)@,
                byte_offset as int,
                bytes_of(entry@, name_83@),
            );
            let lba = dir_lba(*bpb, dir_chain@, byte_offset as int);
            if byte_offset + 32 > old(raw_data)@.len() {
                &&& r == Err::<(), VfsError>(VfsError::NoSpace)
                &&& final(raw_data)@ == old(raw_data)@
                &&& *final(device) == *old(device)
            } else {
                &&& final(raw_data)@ == patched
                &&& match r {
                    Ok(_) => table::has_sector(old(device), lba) && final(device).sectors()
                        == flushed(
                        old(device).sectors(),
                        *bpb,
                        dir_chain@,
                        patched,
                        byte_offset as int,
                    ),
                    Err(e) => {
                        &&& e == VfsError::IoError
                        &&& old(device).reliable() ==> !table::has_sector(old(device), lba)
                        &&& kept_sector(old(device).sectors(), final(device).sectors(), lba)
                    },
                }
            }
        }),
{
    let len: usize = raw_data.len();
    if len < 32 || byte_offset > len - 32 {
        return Err(VfsError::NoSpace);
    }
    let buf: [u8; 32] = build_entry(entry, name_83);
    bytes::copy_at(raw_data, byte_offset, &buf);
    flush_dir_sector(device, bpb, dir_chain, raw_data, byte_offset)
}

/// Whether two disks differ at most in the sector of a directory that holds the entry that
/// was found; where none was found, not at all.
pub open spec fn entry_kept(
    a: Seq<Seq<u8>>,
    b: Seq<Seq<u8>>,
    bpb: FatBpb,
    chain: Seq<u32>,
    found: Option<(int, EntryView)>,
) -> bool {
    match found {
        Some((at, _)) => kept_sector(a, b, dir_lba(bpb, chain, at)),
        None => a == b,
    }
}

/// The bytes of a directory with a new size in the entry at `offset`.
pub open spec fn resized(raw: Seq<u8>, offset: int, size: u32) -> Seq<u8> {
    bytes::overlay(raw, offset + 28, bytes::le32_bytes(size))
}

/// Update the size field of an existing directory entry on disk.
pub fn update_dir_entry_size<D: BlockDevice>(
    device: &mut D,
    bpb: &FatBpb,
    dir_chain: &[u32],
    entry_name: &str,
    new_size: u32,
) -> (r: Result<(), VfsError>)
    requires
        old(device).wf(),
        bpb.wf(),
    ensures
        table::same_geometry(old(device), final(device)),
        ({
            let raw = data::chain_bytes(old(device).sectors(), *bpb, dir_chain@);
            let readable = data::sectors_exist(
                old(device),
                *bpb,
                dir_chain@,
                data::sectors_in(*bpb, dir_chain@),
            );
            match (r, locate(raw, entry_name@, true)) {
                (Ok(_), Some((offset, _))) => {
                    &&& readable
                    &&& table::has_sector(old(device), dir_lba(*bpb, dir_chain@, offset))
                    &&& final(device).sectors() == flushed(
                        old(device).sectors(),
                        *bpb,
                        dir_chain@,
                        resized(raw, offset, new_size),
                        offset,
                    )
                },
                (Ok(_), None) => false,
                (Err(VfsError::NotFound), found) => readable && found is None && *final(device)
                    == *old(device),
                (Err(e), found) => {
                    &&& e == VfsError::IoError
                    &&& old(device).reliable() ==> !readable || (found matches Some((offset, _))
                        && !table::has_sector(old(device), dir_lba(*bpb, dir_chain@, offset)))
                    &&& entry_kept(
                        old(device).sectors(),
                        final(device).sectors(),
                        *bpb,
                        dir_chain@,
                        found,
                    )
                },
            }
        }),
{
    let mut raw_data: Vec<u8> = match data::read_chain_bytes(device, bpb, dir_chain) {
        Ok(raw) => raw,
        Err(e) => {
            return Err(e);
        },
    };
    let ghost raw = raw_data@;
    match search_dir(&raw_data, entry_name, true) {
        Some((offset, _)) => {
            assert(offset + 32 <= raw_data.len());
            raw_data.set(offset + 28, (new_size % 0x100) as u8);
            raw_data.set(offset + 29, (new_size / 0x100 % 0x100) as u8);
            raw_data.set(offset + 30, (new_size / 0x1_0000 % 0x100) as u8);
            raw_data.set(offset + 31, (new_size / 0x100_0000) as u8);
            assert(raw_data@ =~= resized(raw, offset as int, new_size));
            flush_dir_sector(device, bpb, dir_chain, &raw_data, offset)
        },
        None => Err(VfsError::NotFound),
    }
}

/// Find a directory entry by name and return its position and the bytes of the directory.
pub fn find_dir_entry<D: BlockDevice>(
    device: &D,
    bpb: &FatBpb,
    dir_chain: &[u32],
    name: &str,
) -> (r: Result<(usize, Vec<u8>), VfsError>)
    requires
        device.wf(),
        bpb.wf(),
    ensures
        ({
            let raw = data::chain_bytes(device.sectors(), *bpb, dir_chain@);
            let readable = data::sectors_exist(
                device,
                *bpb,
                dir_chain@,
                data::sectors_in(*bpb, dir_chain@),
            );
            match (r, locate(raw, name@, true)) {
                (Ok((offset, bytes)), Some((at, _))) => readable && offset == at && bytes@ == raw
                    && offset + 32 <= raw.len(),
                (Ok(_), None) => false,
                (Err(VfsError::NotFound), found) => readable && found is None,
                (Err(e), _) => e == VfsError::IoError && (device.reliable() ==> !readable),
            }
        }),
{
    let raw_data: Vec<u8> = match data::read_chain_bytes(device, bpb, dir_chain) {
        Ok(raw) => raw,
        Err(e) => {
            return Err(e);
        },
    };
    match search_dir(&raw_data, name, true) {
        Some((offset, _)) => Ok((offset, raw_data)),
        None => Err(VfsError::NotFound),
    }
}

/// Delete a directory entry by marking it as deleted (0xE5).
pub fn delete_dir_entry<D: BlockDevice>(
    device: &mut D,
    bpb: &FatBpb,
    dir_chain: &[u32],
    name: &str,
) -> (r: Result<(), VfsError>)
    requires
        old(device).wf(),
        bpb.wf(),
    ensures
        table::same_geometry(old(device), final(device)),
        ({
            let raw = data::chain_bytes(old(device).sectors(), *bpb, dir_chain@);
            let readable = data::sectors_exist(
                old(device),
                *bpb,
                dir_chain@,
                data::sectors_in(*bpb, dir_chain@),
            );
            match (r, locate(raw, name@, true)) {
                (Ok(_), Some((offset, _))) => {
                    &&& readable
                    &&& table::has_sector(old(device), dir_lba(*bpb, dir_chain@, offset))
                    &&& final(device).sectors() == flushed(
                        old(device).sectors(),
                        *bpb,
                        dir_chain@,
                        raw.update(offset, 0xE5),
                        offset,
                    )
                },
                (Ok(_), None) => false,
                (Err(VfsError::NotFound), found) => readable && found is None && *final(device)
                    == *old(device),
                (Err(e), found) => {
                    &&& e == VfsError::IoError
                    &&& old(device).reliable() ==> !readable || (found matches Some((offset, _))
                        && !table::has_sector(old(device), dir_lba(*bpb, dir_chain@, offset)))
                    &&& entry_kept(
                        old(device).sectors(),
                        final(device).sectors(),
                        *bpb,
                        dir_chain@,
                        found,
                    )
                },
            }
        }),
{
    let (offset, mut raw_data): (usize, Vec<u8>) = match find_dir_entry(
        device,
        bpb,
        dir_chain,
        name,
    ) {
        Ok(found) => found,
        Err(e) => {
            return Err(e);
        },
    };
    raw_data.set(offset, 0xE5);
    flush_dir_sector(device, bpb, dir_chain, &raw_data, offset)
}

/// Look up a directory entry: what it says, where it stands and the bytes of the directory.
pub fn lookup_dir_entry<D: BlockDevice>(
    device: &D,
    bpb: &FatBpb,
    dir_chain: &[u32],
    name: &str,
) -> (r: Result<(FatDirEntry, usize, Vec<u8>), VfsError>)
    requires
        device.wf(),
        bpb.wf(),
    ensures
        ({
            let raw = data::chain_bytes(device.sectors(), *bpb, dir_chain@);
            let readable = data::sectors_exist(
                device,
                *bpb,
                dir_chain@,
                data::sectors_in(*bpb, dir_chain@),
            );
            match (r, locate(raw, name@, true)) {
                (Ok((e, offset, bytes)), Some((at, found))) => readable && e@ == found && offset
                    == at && bytes@ == raw,
                (Ok(_), None) => false,
                (Err(VfsError::NotFound), found) => readable && found is None,
                (Err(e), _) => e == VfsError::IoError && (device.reliable() ==> !readable),
            }
        }),
{
    let raw_data: Vec<u8> = match data::read_chain_bytes(device, bpb, dir_chain) {
        Ok(raw) => raw,
        Err(e) => {
            return Err(e);
        },
    };
    match search_dir(&raw_data, name, true) {
        Some((offset, e)) => Ok((e, offset, raw_data)),
        None => Err(VfsError::NotFound),
    }
}

/// The disk with every sector of a cluster zeroed.
pub open spec fn zeroed_cluster(disk: Seq<Seq<u8>>, bpb: FatBpb, cluster: u32) -> Seq<Seq<u8>> {
    data::write_run(
        disk,
        bpb.cluster_lba(cluster),
        bpb.sectors_per_cluster as int,
        Seq::empty(),
    )
}

/// Zeroes every sector of a cluster.
fn zero_cluster<D: BlockDevice>(device: &mut D, bpb: &FatBpb, cluster: u32) -> (r: Result<
    (),
    VfsError,
>)
    requires
        old(device).wf(),
        bpb.wf(),
    ensures
        table::same_geometry(old(device), final(device)),
        match r {
            Ok(_) => {
                &&& data::run_exists(
                    old(device),
                    bpb.cluster_lba(cluster),
                    bpb.sectors_per_cluster as int,
                )
                &&& final(device).sectors() == zeroed_cluster(
                    old(device).sectors(),
                    *bpb,
                    cluster,
                )
            },
            Err(e) => {
                &&& e == VfsError::IoError
                &&& old(device).reliable() ==> !data::run_exists(
                    old(device),
                    bpb.cluster_lba(cluster),
                    bpb.sectors_per_cluster as int,
                )
                &&& data::kept_around(
                    old(device).sectors(),
                    final(device).sectors(),
                    bpb.cluster_lba(cluster),
                    bpb.sectors_per_cluster as int,
                )
            },
        },
{
    let sector: u64 = bpb.cluster_to_sector(cluster);
    let zeros: [u8; 512] = [0u8; 512];
    let ghost before = *device;
    let mut s: u64 = 0;
    assert(before.sectors() =~= data::write_run(before.sectors(), sector as int, 0, Seq::empty()));
    while s < bpb.sectors_per_cluster as u64
        invariant
            s <= bpb.sectors_per_cluster,
            sector == bpb.cluster_lba(cluster),
            sector <= 0x400_0000_0000,
            before == *old(device),
            before.wf(),
            table::same_geometry(&before, device),
            zeros@ == Seq::new(512, |j: int| 0u8),
            data::run_exists(&before, sector as int, s as int),
            device.sectors() == data::write_run(
                before.sectors(),
                sector as int,
                s as int,
                Seq::empty(),
            ),
        decreases bpb.sectors_per_cluster - s,
    {
        match table::write_block(device, sector + s, &zeros) {
            Ok(_) => {},
            Err(e) => {
                assert(before.reliable() ==> !table::has_sector(&before, sector + s));
                return Err(e);
            },
        }
        s = s + 1;
        assert(zeros@ =~= data::padded_sector(Seq::empty(), (s - 1) * 512));
        assert(device.sectors() =~= data::write_run(
            before.sectors(),
            sector as int,
            s as int,
            Seq::empty(),
        ));
    }
    Ok(())
}

/// The table once cluster `fresh` has been taken and put behind a directory's chain.
pub open spec fn grown_table(disk: Seq<Seq<u8>>, bpb: FatBpb, chain: Seq<u32>, fresh: u32) -> Seq<
    Seq<u8>,
> {
    table::fat_set(
        table::fat_set(
            table::fat_set(disk, bpb, fresh, bpb.end_mark()),
            bpb,
            chain.last(),
            fresh,
        ),
        bpb,
        fresh,
        bpb.end_mark(),
    )
}

/// The disk once cluster `fresh` has been put behind a directory's chain, zeroed, and
/// given the new entry as its first.
pub open spec fn grown(
    disk: Seq<Seq<u8>>,
    bpb: FatBpb,
    chain: Seq<u32>,
    fresh: u32,
    entry: Seq<u8>,
) -> Seq<Seq<u8>> {
    let raw = data::chain_bytes(disk, bpb, chain);
    flushed(
        zeroed_cluster(grown_table(disk, bpb, chain, fresh), bpb, fresh),
        bpb,
        chain.push(fresh),
        bytes::overlay(raw + Seq::new(512, |i: int| 0u8), raw.len() as int, entry),
        raw.len() as int,
    )
}

/// Where the search for a cluster behind a directory's last one starts.
pub open spec fn dir_hint(last: u32) -> u32 {
    if last == u32::MAX {
        2
    } else {
        (last + 1) as u32
    }
}

/// Whether putting cluster `fresh` behind a directory's chain meets a sector that does
/// not exist.
pub open spec fn growth_blocked<D: BlockDevice>(
    device: &D,
    bpb: FatBpb,
    chain: Seq<u32>,
    fresh: u32,
) -> bool {
    ||| !table::entry_writable(device, bpb, chain.last())
    ||| !table::entry_writable(device, bpb, fresh)
    ||| !data::run_exists(device, bpb.cluster_lba(fresh), bpb.sectors_per_cluster as int)
}

/// Whether two disks differ at most in the sectors of a cluster and in those that hold its
/// table entry and the one of the cluster before it.
pub open spec fn growth_kept(
    a: Seq<Seq<u8>>,
    b: Seq<Seq<u8>>,
    bpb: FatBpb,
    last: u32,
    fresh: u32,
) -> bool {
    &&& a.len() == b.len()
    &&& forall|i: int|
        0 <= i < a.len() && !table::holds_entry(bpb, last, i) && !table::holds_entry(bpb, fresh, i)
            && !(bpb.cluster_lba(fresh) <= i < bpb.cluster_lba(fresh) + bpb.sectors_per_cluster)
            ==> #[trigger] b[i] == a[i]
}

/// Whether adding an entry to a directory meets a sector that does not exist, or finds
/// a full directory that has no cluster chain to extend.
pub open spec fn append_blocked<D: BlockDevice>(device: &D, bpb: FatBpb, chain: Seq<u32>) -> bool {
    let raw = data::chain_bytes(device.sectors(), bpb, chain);
    ||| !data::sectors_exist(device, bpb, chain, data::sectors_in(bpb, chain))
    ||| match free_slot(raw, 0) {
        Some(at) => !table::has_sector(device, dir_lba(bpb, chain, at)),
        None => {
            ||| chain.len() == 0
            ||| exists|c: u32|
                #[trigger] table::search_fails_at(device, bpb, dir_hint(chain.last()), c)
            ||| exists|c: u32|
                {
                    &&& #[trigger] table::search_reaches(
                        device.sectors(),
                        bpb,
                        dir_hint(chain.last()),
                        c,
                    )
                    &&& table::fat_get(device.sectors(), bpb, c) == 0
                    &&& growth_blocked(device, bpb, chain, c)
                }
        },
    }
}

/// What a failed attempt to add an entry leaves as it was: everything but the sector of
/// the free slot, or, where there is none, the cluster that was to be put behind the chain
/// with the two table entries that link it.
pub open spec fn append_kept(a: Seq<Seq<u8>>, b: Seq<Seq<u8>>, bpb: FatBpb, chain: Seq<u32>) -> bool {
    a == b || match free_slot(data::chain_bytes(a, bpb, chain), 0) {
        Some(at) => in_bytes(data::chain_bytes(a, bpb, chain), at) && kept_sector(
            a,
            b,
            dir_lba(bpb, chain, at),
        ),
        None => exists|c: u32|
            {
                &&& #[trigger] table::search_reaches(a, bpb, dir_hint(chain.last()), c)
                &&& table::fat_get(a, bpb, c) == 0
                &&& growth_kept(a, b, bpb, chain.last(), c)
            },
    }
}

/// What adding an entry to a directory with a chain does.
pub open spec fn append_outcome<D: BlockDevice>(
    a: &D,
    b: &D,
    bpb: FatBpb,
    chain: Seq<u32>,
    longer: Seq<u32>,
    new_entry: Seq<u8>,
    r: Result<(), VfsError>,
) -> bool {
    let disk = a.sectors();
    let raw = data::chain_bytes(disk, bpb, chain);
    &&& table::same_geometry(a, b)
    &&& match r {
        Ok(_) => {
            &&& data::sectors_exist(a, bpb, chain, data::sectors_in(bpb, chain))
            &&& match free_slot(raw, 0) {
                Some(at) => {
                    &&& longer == chain
                    &&& in_bytes(raw, at)
                    &&& table::has_sector(a, dir_lba(bpb, chain, at))
                    &&& b.sectors() == flushed(
                        disk,
                        bpb,
                        chain,
                        bytes::overlay(raw, at, new_entry),
                        at,
                    )
                },
                None => {
                    let fresh = longer.last();
                    &&& chain.len() > 0
                    &&& longer == chain.push(fresh)
                    &&& table::search_reaches(disk, bpb, dir_hint(chain.last()), fresh)
                    &&& table::fat_get(disk, bpb, fresh) == 0
                    &&& !growth_blocked(a, bpb, chain, fresh)
                    &&& b.sectors() == grown(disk, bpb, chain, fresh, new_entry)
                },
            }
        },
        Err(VfsError::NoSpace) => {
            &&& free_slot(raw, 0) is None
            &&& chain.len() > 0
            &&& table::none_free(disk, bpb, dir_hint(chain.last()))
            &&& longer == chain
            &&& b.sectors() == disk
        },
        Err(e) => {
            &&& e == VfsError::IoError
            &&& a.reliable() ==> append_blocked(a, bpb, chain)
            &&& chain.is_prefix_of(longer)
            &&& append_kept(disk, b.sectors(), bpb, chain)
        },
    }
}

/// Add a new directory entry in the first free slot of a directory. A full directory
/// gets a further cluster, and `dir_chain` with it.
pub fn append_dir_entry<D: BlockDevice>(
    device: &mut D,
    bpb: &FatBpb,
    dir_chain: &mut Vec<u32>,
    entry: &FatDirEntry,
    name_83: [u8; 11],
    out: &mut Vec<u8>,
) -> (r: Result<(), VfsError>)
    requires
        old(device).wf(),
        bpb.wf(),
    ensures
        final(out)@ == table::search_log(
            old(out)@,
            r == Err::<(), VfsError>(VfsError::NoSpace),
        ),
        append_outcome(
            old(device),
            final(device),
            *bpb,
            old(dir_chain)@,
            final(dir_chain)@,
            bytes_of(entry@, name_83@),
            r,
        ),
{
    let ghost before = *device;
    let ghost chain = dir_chain@;
    assert(chain.is_prefix_of(dir_chain@));
    let mut raw_data: Vec<u8> = match data::read_chain_bytes(device, bpb, dir_chain) {
        Ok(raw) => raw,
        Err(e) => {
            return Err(e);
        },
    };
    let ghost raw = raw_data@;
    match find_free_dir_slot_in_raw(&raw_data) {
        Some(offset) => {
            return write_dir_entry_at_offset(
                device,
                bpb,
                dir_chain,
                &mut raw_data,
                offset,
                entry,
                name_83,
            );
        },
        None => {},
    }
    let chain_len: usize = dir_chain.len();
    if chain_len == 0 {
        return Err(VfsError::IoError);
    }
    let last_cluster: u32 = dir_chain[chain_len - 1];
    assert(last_cluster == chain.last());
    let hint: u32 = if last_cluster == u32::MAX {
        2
    } else {
        last_cluster + 1
    };
    let new_cluster: u32 = match table::allocate_cluster(device, bpb, hint, out) {
        Ok(c) => c,
        Err(e) => {
            proof {
                assert(hint == dir_hint(chain.last()));
                if before.reliable() && e == VfsError::IoError {
                    let c = choose|c: u32| table::search_fails_at(&before, *bpb, hint, c);
                    assert(table::search_fails_at(&before, *bpb, dir_hint(chain.last()), c));
                }
                lemma_search_kept(before.sectors(), device.sectors(), *bpb, chain, hint);
            }
            return Err(e);
        },
    };
    let ghost taken = device.sectors();
    let ghost lba = bpb.cluster_lba(new_cluster);
    proof {
        assert(hint == dir_hint(chain.last()));
        assert(free_slot(data::chain_bytes(before.sectors(), *bpb, chain), 0) is None);
        assert(table::search_reaches(
            before.sectors(),
            *bpb,
            dir_hint(chain.last()),
            new_cluster,
        ));
        assert(growth_blocked(&before, *bpb, chain, new_cluster) ==> append_blocked(
            &before,
            *bpb,
            chain,
        ));
        assert(seq![new_cluster][0] == new_cluster);
        table::lemma_set_kept(
            before.sectors(),
            *bpb,
            new_cluster,
            bpb.end_mark(),
            bpb.num_fats as nat,
            seq![new_cluster],
            0,
        );
        lemma_one_kept(before.sectors(), taken, *bpb, chain.last(), new_cluster);
    }
    match table::extend_chain(device, bpb, last_cluster, new_cluster) {
        Ok(_) => {},
        Err(e) => {
            proof {
                lemma_two_kept(taken, device.sectors(), *bpb, chain.last(), new_cluster);
                assert(growth_kept(
                    before.sectors(),
                    device.sectors(),
                    *bpb,
                    chain.last(),
                    new_cluster,
                ));
            }
            return Err(e);
        },
    }
    let ghost linked = device.sectors();
    proof {
        lemma_links_kept(taken, *bpb, chain.last(), new_cluster);
        assert(linked == grown_table(before.sectors(), *bpb, chain, new_cluster));
    }
    match zero_cluster(device, bpb, new_cluster) {
        Ok(_) => {},
        Err(e) => {
            assert(growth_kept(
                before.sectors(),
                device.sectors(),
                *bpb,
                chain.last(),
                new_cluster,
            ));
            return Err(e);
        },
    }
    let ghost cleared = device.sectors();
    dir_chain.push(new_cluster);
    let new_cluster_offset: usize = raw_data.len();
    let zeros: [u8; 512] = [0u8; 512];
    bytes::append(&mut raw_data, &zeros);
    proof {
        let spc = bpb.sectors_per_cluster as int;
        data::lemma_sector_index(*bpb, dir_chain@, chain_len as int, 0);
        assert(raw.len() == chain_len * spc * 512);
        assert(raw.len() as int / 512 == chain_len * spc);
        assert(dir_lba(*bpb, dir_chain@, raw.len() as int) == lba);
        assert(zeros@ =~= Seq::new(512, |i: int| 0u8));
        assert(dir_chain@ =~= chain.push(dir_chain@.last()));
        assert(chain.is_prefix_of(dir_chain@));
    }
    match write_dir_entry_at_offset(
        device,
        bpb,
        dir_chain,
        &mut raw_data,
        new_cluster_offset,
        entry,
        name_83,
    ) {
        Ok(_) => Ok(()),
        Err(e) => {
            assert(growth_kept(
                before.sectors(),
                device.sectors(),
                *bpb,
                chain.last(),
                new_cluster,
            ));
            Err(e)
        },
    }
}

proof fn lemma_one_kept(a: Seq<Seq<u8>>, b: Seq<Seq<u8>>, bpb: FatBpb, last: u32, fresh: u32)
    requires
        table::kept_but(a, b, bpb, seq![fresh]),
    ensures
        growth_kept(a, b, bpb, last, fresh),
{
    let one = seq![fresh];
    assert forall|i: int|
        0 <= i < a.len() && !table::holds_entry(bpb, fresh, i) implies #[trigger] b[i] == a[i] by {
        assert forall|j: int| 0 <= j < one.len() implies !table::holds_entry(
            bpb,
            #[trigger] one[j],
            i,
        ) by {}
    }
}

proof fn lemma_two_kept(a: Seq<Seq<u8>>, b: Seq<Seq<u8>>, bpb: FatBpb, last: u32, fresh: u32)
    requires
        table::kept_but(a, b, bpb, seq![last, fresh]),
    ensures
        growth_kept(a, b, bpb, last, fresh),
{
    let both = seq![last, fresh];
    assert forall|i: int|
        0 <= i < a.len() && !table::holds_entry(bpb, last, i) && !table::holds_entry(bpb, fresh, i)
        implies #[trigger] b[i] == a[i] by {
        assert forall|j: int| 0 <= j < both.len() implies !table::holds_entry(
            bpb,
            #[trigger] both[j],
            i,
        ) by {}
    }
}

/// Linking a cluster behind another changes at most the sectors of the two table entries.
proof fn lemma_links_kept(disk: Seq<Seq<u8>>, bpb: FatBpb, last: u32, fresh: u32)
    requires
        forall|copy: int|
            0 <= copy < bpb.num_fats ==> 0 <= #[trigger] table::fat_lba(bpb, copy, last)
                < disk.len(),
        forall|copy: int|
            0 <= copy < bpb.num_fats ==> 0 <= #[trigger] table::fat_lba(bpb, copy, fresh)
                < disk.len(),
    ensures
        growth_kept(
            disk,
            table::fat_set(
                table::fat_set(disk, bpb, last, fresh),
                bpb,
                fresh,
                bpb.end_mark(),
            ),
            bpb,
            last,
            fresh,
        ),
{
    let both = seq![last, fresh];
    let first = table::fat_set(disk, bpb, last, fresh);
    table::lemma_set_kept(disk, bpb, last, fresh, bpb.num_fats as nat, both, 0);
    table::lemma_set_kept(first, bpb, fresh, bpb.end_mark(), bpb.num_fats as nat, both, 1);
    lemma_two_kept(
        disk,
        table::fat_set(first, bpb, fresh, bpb.end_mark()),
        bpb,
        last,
        fresh,
    );
}

proof fn lemma_search_kept(
    a: Seq<Seq<u8>>,
    b: Seq<Seq<u8>>,
    bpb: FatBpb,
    chain: Seq<u32>,
    hint: u32,
)
    requires
        table::search_kept(a, b, bpb, hint) || a == b,
        hint == dir_hint(chain.last()),
        free_slot(data::chain_bytes(a, bpb, chain), 0) is None,
    ensures
        append_kept(a, b, bpb, chain),
{
    if a != b {
        let c = choose|c: u32|
            {
                &&& #[trigger] table::search_reaches(a, bpb, hint, c)
                &&& table::fat_get(a, bpb, c) == 0
                &&& table::kept_but(a, b, bpb, seq![c])
            };
        lemma_one_kept(a, b, bpb, chain.last(), c);
    }
}

/// The first sector of the root directory of a FAT16 volume.
pub open spec fn root_start(bpb: FatBpb) -> int {
    bpb.base_sector + bpb.root_dir_start_sector
}

/// The bytes of a directory with the given chain. A directory without one is the root of
/// a FAT16 volume.
pub open spec fn held_bytes(disk: Seq<Seq<u8>>, bpb: FatBpb, chain: Seq<u32>) -> Seq<u8> {
    if chain.len() == 0 {
        data::run_bytes(disk, root_start(bpb), bpb.root_dir_sectors as int)
    } else {
        data::chain_bytes(disk, bpb, chain)
    }
}

/// Whether all the sectors of such a directory exist.
pub open spec fn held_exists<D: BlockDevice>(device: &D, bpb: FatBpb, chain: Seq<u32>) -> bool {
    if chain.len() == 0 {
        data::run_exists(device, root_start(bpb), bpb.root_dir_sectors as int)
    } else {
        data::sectors_exist(device, bpb, chain, data::sectors_in(bpb, chain))
    }
}

/// The LBA of the sector of such a directory that holds byte `at`.
pub open spec fn slot_lba(bpb: FatBpb, chain: Seq<u32>, at: int) -> int {
    if chain.len() == 0 {
        root_start(bpb) + at / 512
    } else {
        dir_lba(bpb, chain, at)
    }
}

/// The disk with that sector taken from the bytes of the directory.
pub open spec fn slot_flushed(
    disk: Seq<Seq<u8>>,
    bpb: FatBpb,
    chain: Seq<u32>,
    raw: Seq<u8>,
    at: int,
) -> Seq<Seq<u8>> {
    disk.update(slot_lba(bpb, chain, at), data::padded_sector(raw, at / 512 * 512))
}

/// Reads the bytes of a directory.
fn read_held<D: BlockDevice>(device: &D, bpb: &FatBpb, chain: &[u32]) -> (r: Result<
    Vec<u8>,
    VfsError,
>)
    requires
        device.wf(),
        bpb.wf(),
    ensures
        match r {
            Ok(raw) => held_exists(device, *bpb, chain@) && raw@ == held_bytes(
                device.sectors(),
                *bpb,
                chain@,
            ),
            Err(e) => e == VfsError::IoError && (device.reliable() ==> !held_exists(
                device,
                *bpb,
                chain@,
            )),
        },
{
    if chain.len() == 0 {
        data::read_sectors(
            device,
            bpb.base_sector as u64 + bpb.root_dir_start_sector,
            bpb.root_dir_sectors as u64,
        )
    } else {
        data::read_chain_bytes(device, bpb, chain)
    }
}

/// Writes back the sector of a directory that holds byte `at`.
fn flush_slot<D: BlockDevice>(
    device: &mut D,
    bpb: &FatBpb,
    chain: &[u32],
    raw_data: &[u8],
    at: usize,
) -> (r: Result<(), VfsError>)
    requires
        old(device).wf(),
        bpb.wf(),
        held_exists(old(device), *bpb, chain@),
        raw_data@.len() == held_bytes(old(device).sectors(), *bpb, chain@).len(),
        at < raw_data@.len(),
    ensures
        table::same_geometry(old(device), final(device)),
        table::has_sector(old(device), slot_lba(*bpb, chain@, at as int)),
        match r {
            Ok(_) => final(device).sectors() == slot_flushed(
                old(device).sectors(),
                *bpb,
                chain@,
                raw_data@,
                at as int,
            ),
            Err(e) => {
                &&& e == VfsError::IoError
                &&& !old(device).reliable()
                &&& kept_sector(
                    old(device).sectors(),
                    final(device).sectors(),
                    slot_lba(*bpb, chain@, at as int),
                )
            },
        },
{
    if chain.len() == 0 {
        let from: usize = at / 512 * 512;
        let lba: u64 = bpb.base_sector as u64 + bpb.root_dir_start_sector + (at / 512) as u64;
        let mut sector_buf: [u8; 512] = [0u8; 512];
        bytes::copy_range(&mut sector_buf, 0, raw_data, from, 512);
        assert(sector_buf@ =~= data::padded_sector(raw_data@, from as int));
        table::write_block(device, lba, &sector_buf)
    } else {
        assert(table::has_sector(device, data::chain_lba(*bpb, chain@, at as int / 512)));
        flush_dir_sector(device, bpb, chain, raw_data, at)
    }
}

/// The bytes of a directory with a new first cluster and size in the entry at `at`.
pub open spec fn pointed(raw: Seq<u8>, at: int, first_cluster: u32, size: u32) -> Seq<u8> {
    Seq::new(
        raw.len(),
        |i: int|
            if i == at + 20 {
                bytes::byte_of(first_cluster, 2)
            } else if i == at + 21 {
                bytes::byte_of(first_cluster, 3)
            } else if i == at + 26 {
                bytes::byte_of(first_cluster, 0)
            } else if i == at + 27 {
                bytes::byte_of(first_cluster, 1)
            } else if at + 28 <= i < at + 32 {
                bytes::byte_of(size, i - at - 28)
            } else {
                raw[i]
            },
    )
}

/// What pointing an entry to new contents does.
pub open spec fn point_outcome<D: BlockDevice>(
    a: &D,
    b: &D,
    bpb: FatBpb,
    chain: Seq<u32>,
    name: Seq<char>,
    first_cluster: u32,
    size: u32,
    r: Result<(), VfsError>,
) -> bool {
    let disk = a.sectors();
    let raw = held_bytes(disk, bpb, chain);
    let found = locate(raw, name, true);
    &&& table::same_geometry(a, b)
    &&& match r {
        Ok(_) => {
            &&& held_exists(a, bpb, chain)
            &&& found matches Some((at, _)) && in_bytes(raw, at) && b.sectors() == slot_flushed(
                disk,
                bpb,
                chain,
                pointed(raw, at, first_cluster, size),
                at,
            )
        },
        Err(VfsError::NotFound) => held_exists(a, bpb, chain) && found is None && *b == *a,
        Err(e) => {
            &&& e == VfsError::IoError
            &&& a.reliable() ==> !held_exists(a, bpb, chain)
            &&& disk == b.sectors() || (found matches Some((at, _)) && in_bytes(raw, at) && kept_sector(
                disk,
                b.sectors(),
                slot_lba(bpb, chain, at),
            ))
        },
    }
}

/// Writes a new first cluster and a new size into an existing entry.
pub fn update_dir_entry<D: BlockDevice>(
    device: &mut D,
    bpb: &FatBpb,
    dir_chain: &[u32],
    entry_name: &str,
    first_cluster: u32,
    new_size: u32,
) -> (r: Result<(), VfsError>)
    requires
        old(device).wf(),
        bpb.wf(),
    ensures
        point_outcome(
            old(device),
            final(device),
            *bpb,
            dir_chain@,
            entry_name@,
            first_cluster,
            new_size,
            r,
        ),
{
    let mut raw_data: Vec<u8> = match read_held(device, bpb, dir_chain) {
        Ok(raw) => raw,
        Err(e) => {
            return Err(e);
        },
    };
    let ghost raw = raw_data@;
    match search_dir(&raw_data, entry_name, true) {
        Some((at, _)) => {
            assert(at + 32 <= raw_data.len());
            raw_data.set(at + 20, (first_cluster / 0x1_0000 % 0x100) as u8);
            raw_data.set(at + 21, (first_cluster / 0x100_0000) as u8);
            raw_data.set(at + 26, (first_cluster % 0x100) as u8);
            raw_data.set(at + 27, (first_cluster / 0x100 % 0x100) as u8);
            raw_data.set(at + 28, (new_size % 0x100) as u8);
            raw_data.set(at + 29, (new_size / 0x100 % 0x100) as u8);
            raw_data.set(at + 30, (new_size / 0x1_0000 % 0x100) as u8);
            raw_data.set(at + 31, (new_size / 0x100_0000) as u8);
            assert(raw_data@ =~= pointed(raw, at as int, first_cluster, new_size));
            flush_slot(device, bpb, dir_chain, &raw_data, at)
        },
        None => Err(VfsError::NotFound),
    }
}

/// What adding an entry to a directory does. The root of a FAT16 volume cannot grow.
pub open spec fn add_outcome<D: BlockDevice>(
    a: &D,
    b: &D,
    bpb: FatBpb,
    chain: Seq<u32>,
    longer: Seq<u32>,
    new_entry: Seq<u8>,
    r: Result<(), VfsError>,
) -> bool {
    let disk = a.sectors();
    let raw = held_bytes(disk, bpb, chain);
    let found = free_slot(raw, 0);
    if chain.len() > 0 {
        append_outcome(a, b, bpb, chain, longer, new_entry, r)
    } else {
        &&& table::same_geometry(a, b)
        &&& longer == chain
        &&& match r {
            Ok(_) => {
                &&& held_exists(a, bpb, chain)
                &&& found matches Some(at) && in_bytes(raw, at) && b.sectors() == slot_flushed(
                    disk,
                    bpb,
                    chain,
                    bytes::overlay(raw, at, new_entry),
                    at,
                )
            },
            Err(VfsError::NoSpace) => held_exists(a, bpb, chain) && found is None && *b == *a,
            Err(e) => {
                &&& e == VfsError::IoError
                &&& a.reliable() ==> !held_exists(a, bpb, chain)
                &&& disk == b.sectors() || (found matches Some(at) && in_bytes(raw, at) && kept_sector(
                    disk,
                    b.sectors(),
                    slot_lba(bpb, chain, at),
                ))
            },
        }
    }
}

/// Adds an entry to a directory with the given chain, or to the root of a FAT16 volume.
pub fn add_dir_entry<D: BlockDevice>(
    device: &mut D,
    bpb: &FatBpb,
    dir_chain: &mut Vec<u32>,
    entry: &FatDirEntry,
    name_83: [u8; 11],
    out: &mut Vec<u8>,
) -> (r: Result<(), VfsError>)
    requires
        old(device).wf(),
        bpb.wf(),
    ensures
        final(out)@ == table::search_log(
            old(out)@,
            old(dir_chain)@.len() > 0 && r == Err::<(), VfsError>(VfsError::NoSpace),
        ),
        add_outcome(
            old(device),
            final(device),
            *bpb,
            old(dir_chain)@,
            final(dir_chain)@,
            bytes_of(entry@, name_83@),
            r,
        ),
{
    if dir_chain.len() > 0 {
        return append_dir_entry(device, bpb, dir_chain, entry, name_83, out);
    }
    let mut raw_data: Vec<u8> = match read_held(device, bpb, dir_chain) {
        Ok(raw) => raw,
        Err(e) => {
            return Err(e);
        },
    };
    match find_free_dir_slot_in_raw(&raw_data) {
        Some(at) => {
            let buf: [u8; 32] = build_entry(entry, name_83);
            bytes::copy_at(&mut raw_data, at, &buf);
            flush_slot(device, bpb, dir_chain, &raw_data, at)
        },
        None => Err(VfsError::NoSpace),
    }
}

} // verus!
