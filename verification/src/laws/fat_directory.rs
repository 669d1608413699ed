//! What the bytes of a directory say: entries, short and long names, free slots.
use vstd::prelude::*;

use crate::bytes;
use crate::fat32::dir::{
    after_slot, first_named, free_slot, is_long, joined, lfn_text, lfn_unit, listing, part_number, pointed,
    renamed, resized, scan, with_part,
};
use crate::fat32::entry::{
    dot_from, dotted_name, entry_bytes, entry_of, field_text, lemma_dot_from, lower, short_name,
    text_len, upper, EntryView,
};
use crate::fat32::inode::{first_file, name_list};

verus! {

/// Capital letters have small ones 32 above them; every other byte is its own.
pub proof fn law_letter_case(b: u8)
    ensures
        65 <= b <= 90 ==> lower(b) == b + 32 && upper(lower(b)) == b,
        97 <= b <= 122 ==> upper(b) == b - 32 && lower(upper(b)) == b,
        !(65 <= b <= 90) ==> lower(b) == b,
        !(97 <= b <= 122) ==> upper(b) == b,
{
}

/// An entry that is in use and neither a part of a long name nor a volume label says: the
/// attributes at byte 11, the halves of the cluster number at bytes 20 and 26, the size at
/// byte 28.
pub proof fn law_entry_fields(slot: Seq<u8>, high: int, low: int, size: int)
    requires
        slot.len() >= 32,
        slot[0] != 0,
        slot[0] != 0xE5,
        slot[11] != 0x0F,
        slot[11] & 0x08 == 0,
        bytes::has16(slot, 20, high),
        bytes::has16(slot, 26, low),
        bytes::has32(slot, 28, size),
    ensures
        entry_of(slot) matches Some(e) && {
            &&& e.attributes == slot[11]
            &&& e.first_cluster == 65536 * high + low
            &&& e.size == size
            &&& e.name == dotted_name(slot)
            &&& !e.is_lfn
        },
{
    bytes::law_little_endian(slot, 20, high);
    bytes::law_little_endian(slot, 26, low);
    bytes::law_little_endian(slot, 28, size);
}

/// A slot that starts with 0 or 0xE5 is free, and one with the label bit holds no file.
pub proof fn law_unused_slots(slot: Seq<u8>)
    requires
        slot.len() >= 32,
    ensures
        slot[0] == 0 ==> entry_of(slot) is None,
        slot[0] == 0xE5 ==> entry_of(slot) is None,
        slot[11] & 0x08 != 0 && slot[11] != 0x0F ==> entry_of(slot) is None,
        slot[0] != 0 && slot[0] != 0xE5 && slot[11] == 0x0F ==> (entry_of(slot) matches Some(e)
            && e.is_lfn),
{
}

/// The entry that is written has its name, attributes, cluster number and size where they are
/// read, and zeros elsewhere.
#[verifier::rlimit(40)]
pub proof fn law_entry_layout(
    name: Seq<u8>,
    attributes: u8,
    first_cluster: u32,
    size: u32,
    i: int,
)
    requires
        name.len() == 11,
    ensures
        ({
            let slot = entry_bytes(name, attributes, first_cluster, size);
            &&& slot.len() == 32
            &&& slot.take(11) == name
            &&& slot[11] == attributes
            &&& bytes::has16(slot, 20, first_cluster as int / 65536)
            &&& bytes::has16(slot, 26, first_cluster as int % 65536)
            &&& bytes::has32(slot, 28, size as int)
            &&& 12 <= i < 20 || 22 <= i < 26 ==> slot[i] == 0
        }),
{
    let slot = entry_bytes(name, attributes, first_cluster, size);
    assert(slot.take(11) =~= name);
}

/// The text of a padded field is what stands in front of the first blank or zero.
pub proof fn law_field_text(buf: Seq<u8>, from: int, to: int, n: int)
    requires
        0 <= from,
        from + n <= to <= buf.len(),
        0 <= n,
        forall|i: int| from <= i < from + n ==> #[trigger] buf[i] != 0x20 && buf[i] != 0,
        from + n < to ==> buf[from + n] == 0x20 || buf[from + n] == 0,
    ensures
        text_len(buf, from, to) == n,
        field_text(buf, from, to) == Seq::new(n as nat, |i: int| lower(buf[from + i]) as char),
    decreases n,
{
    if n > 0 {
        assert(buf[from] != 0x20);
        law_field_text(buf, from + 1, to, n - 1);
    }
}

/// A name field with `n` letters and `x` letters of extension, each padded with blanks, reads
/// as the first ones, in small letters, and, if there are any others, a dot and those.
pub proof fn law_short_name_read(buf: Seq<u8>, n: int, x: int)
    requires
        buf.len() >= 11,
        0 <= n <= 8,
        0 <= x <= 3,
        forall|i: int| 0 <= i < n ==> #[trigger] buf[i] != 0x20 && buf[i] != 0,
        forall|i: int| n <= i < 8 ==> #[trigger] buf[i] == 0x20,
        forall|i: int| 8 <= i < 8 + x ==> #[trigger] buf[i] != 0x20 && buf[i] != 0,
        forall|i: int| 8 + x <= i < 11 ==> #[trigger] buf[i] == 0x20,
    ensures
        ({
            let name = dotted_name(buf);
            &&& name.len() == if x == 0 {
                n
            } else {
                n + 1 + x
            }
            &&& forall|i: int| 0 <= i < n ==> #[trigger] name[i] == lower(buf[i]) as char
            &&& x > 0 ==> name[n] == '.'
            &&& forall|i: int|
                n < i < n + 1 + x ==> #[trigger] name[i] == lower(buf[8 + (i - n - 1)]) as char
        }),
{
    law_field_text(buf, 0, 8, n);
    law_field_text(buf, 8, 11, x);
}

/// A name of one to eight bytes without a dot has a short form: the name in capitals,
/// padded with blanks.
pub proof fn law_short_name_bare(name: Seq<u8>)
    requires
        1 <= name.len() <= 8,
        forall|i: int| 0 <= i < name.len() ==> #[trigger] name[i] != 0x2E,
    ensures
        short_name(name) matches Some(s) && {
            &&& s.len() == 11
            &&& forall|i: int| 0 <= i < name.len() ==> #[trigger] s[i] == upper(name[i])
            &&& forall|i: int| name.len() <= i < 11 ==> #[trigger] s[i] == 0x20
        },
{
    lemma_dot_from(name, 0);
}

/// So has one with a dot and up to three bytes behind it, which come at byte 8.
#[verifier::rlimit(40)]
pub proof fn law_short_name_dotted(stem: Seq<u8>, ext: Seq<u8>)
    requires
        1 <= stem.len() <= 8,
        ext.len() <= 3,
        forall|i: int| 0 <= i < stem.len() ==> #[trigger] stem[i] != 0x2E,
        forall|i: int| 0 <= i < ext.len() ==> #[trigger] ext[i] != 0x2E,
    ensures
        short_name(stem.push(0x2E) + ext) matches Some(s) && {
            &&& s.len() == 11
            &&& forall|i: int| 0 <= i < stem.len() ==> #[trigger] s[i] == upper(stem[i])
            &&& forall|i: int| stem.len() <= i < 8 ==> #[trigger] s[i] == 0x20
            &&& forall|i: int| 0 <= i < ext.len() ==> s[8 + i] == upper(#[trigger] ext[i])
            &&& forall|i: int| 8 + ext.len() <= i < 11 ==> #[trigger] s[i] == 0x20
        },
{
    let name = stem.push(0x2E) + ext;
    assert(name[stem.len() as int] == 0x2E);
    assert(forall|i: int| 0 <= i < stem.len() ==> #[trigger] name[i] == stem[i]);
    assert forall|i: int| stem.len() < i < name.len() implies #[trigger] name[i] != 0x2E by {
        assert(name[i] == ext[i - stem.len() - 1]);
    }
    lemma_dot_from(name, 0);
    let dot = dot_from(name, 0);
    assert(dot == stem.len());
    lemma_dot_from(name, dot + 1);
    let s = short_name(name).unwrap();
    assert forall|i: int| 0 <= i < ext.len() implies s[8 + i] == upper(#[trigger] ext[i]) by {
        assert(name[dot + 1 + i] == ext[i]);
    }
}

/// No other name has a short form: not one that is empty or starts with a dot, has two dots,
/// more than eight bytes in front of the dot or more than three behind it.
pub proof fn law_short_name_refused(name: Seq<u8>, i: int, j: int)
    ensures
        name.len() == 0 ==> short_name(name) is None,
        name.len() > 0 && name[0] == 0x2E ==> short_name(name) is None,
        0 <= i < j < name.len() && name[i] == 0x2E && name[j] == 0x2E ==> short_name(name) is None,
        0 <= i && i + 4 < name.len() && name[i] == 0x2E ==> short_name(name) is None,
        name.len() > 8 && (forall|k: int| 0 <= k <= 8 ==> #[trigger] name[k] != 0x2E) ==> short_name(
            name,
        ) is None,
{
    lemma_dot_from(name, 0);
    let dot = dot_from(name, 0);
    if dot < name.len() {
        lemma_dot_from(name, dot + 1);
    }
}

/// A slot of a long name holds thirteen 16-bit units: five from byte 1, six from byte 14 and
/// two from byte 28.
pub proof fn law_long_name_units(slot: Seq<u8>, k: int, v: int)
    ensures
        0 <= k < 5 && bytes::has16(slot, 1 + 2 * k, v) ==> lfn_unit(slot, k) == v,
        5 <= k < 11 && bytes::has16(slot, 4 + 2 * k, v) ==> lfn_unit(slot, k) == v,
        11 <= k < 13 && bytes::has16(slot, 6 + 2 * k, v) ==> lfn_unit(slot, k) == v,
{
    bytes::law_little_endian(slot, 1 + 2 * k, v);
    bytes::law_little_endian(slot, 4 + 2 * k, v);
    bytes::law_little_endian(slot, 6 + 2 * k, v);
}

/// The text of a long-name slot whose first `n` units are ASCII characters, with an end mark
/// behind them if they are not all, is those characters.
pub proof fn law_long_name_text(slot: Seq<u8>, n: int)
    requires
        0 <= n <= 13,
        forall|k: int| 0 <= k < n ==> 0 < #[trigger] lfn_unit(slot, k) < 128,
        n < 13 ==> lfn_unit(slot, n) == 0 || lfn_unit(slot, n) == 0xFFFF,
    ensures
        lfn_text(slot, 0) == Seq::new(n as nat, |k: int| lfn_unit(slot, k) as u8 as char),
{
    lemma_long_text(slot, n, 0);
    assert(lfn_text(slot, 0) =~= Seq::new(n as nat, |k: int| lfn_unit(slot, k) as u8 as char));
}

proof fn lemma_long_text(slot: Seq<u8>, n: int, from: int)
    requires
        0 <= from <= n <= 13,
        forall|k: int| 0 <= k < n ==> 0 < #[trigger] lfn_unit(slot, k) < 128,
        n < 13 ==> lfn_unit(slot, n) == 0 || lfn_unit(slot, n) == 0xFFFF,
    ensures
        lfn_text(slot, from) == Seq::new(
            (n - from) as nat,
            |k: int| lfn_unit(slot, from + k) as u8 as char,
        ),
    decreases n - from,
{
    if from < n {
        lemma_long_text(slot, n, from + 1);
        assert(0 < lfn_unit(slot, from) < 128);
    }
    assert(lfn_text(slot, from) =~= Seq::new(
        (n - from) as nat,
        |k: int| lfn_unit(slot, from + k) as u8 as char,
    ));
}

/// A long name is its parts one behind the other.
pub proof fn law_long_name_joined(a: Seq<(u8, Seq<char>)>, b: Seq<(u8, Seq<char>)>, number: u8, text: Seq<char>)
    ensures
        joined(a + b) == joined(a) + joined(b),
        joined(seq![(number, text)]) == text,
        joined(Seq::empty()) == Seq::<char>::empty(),
    decreases b.len(),
{
    reveal_with_fuel(joined, 2);
    assert(seq![(number, text)].drop_last() =~= Seq::empty());
    if b.len() == 0 {
        assert(a + b =~= a);
        assert(joined(a) + joined(b) =~= joined(a));
    } else {
        law_long_name_joined(a, b.drop_last(), number, text);
        assert((a + b).drop_last() =~= a + b.drop_last());
        assert(joined(a + b) =~= joined(a) + joined(b));
    }
    assert(joined(seq![(number, text)]) =~= text);
}

/// The number of a part is in the low six bits of the first byte.
pub proof fn law_part_number(slot: Seq<u8>, number: int, last: bool)
    requires
        0 <= number < 64,
        slot[0] == number + (if last {
            64int
        } else {
            0
        }),
    ensures
        part_number(slot) == number,
{
}

/// Every entry in use in front of the end mark is found, under its own name or, if parts of
/// a long name stand right in front of it, under that: the entries of a directory are those of
/// its first slot and those of the rest.
pub proof fn law_entries_in_slots(raw: Seq<u8>, at: int)
    requires
        0 <= at,
        at + 32 <= raw.len(),
        raw[at] != 0,
        raw[at + 11] != 0x0F,
    ensures
        ({
            let slot = raw.subrange(at, at + 32);
            let rest = scan(raw, at + 32, Seq::empty(), true);
            scan(raw, at, Seq::empty(), true) == match entry_of(slot) {
                Some(e) => seq![(at, e)] + rest,
                None => rest,
            }
        }),
{
    let slot = raw.subrange(at, at + 32);
    assert(slot[11] == raw[at + 11]);
    assert(joined(Seq::empty()).len() == 0);
}

/// An entry behind one slot of a long name goes by the text of that slot.
#[verifier::rlimit(40)]
pub proof fn law_long_name_used(raw: Seq<u8>, at: int)
    requires
        0 <= at,
        at + 64 <= raw.len(),
        raw[at] != 0,
        raw[at] != 0xE5,
        raw[at + 11] == 0x0F,
        raw[at + 32] != 0,
        raw[at + 32] != 0xE5,
        raw[at + 43] != 0x0F,
        raw[at + 43] & 0x08 == 0,
        lfn_text(raw.subrange(at, at + 32), 0).len() > 0,
    ensures
        ({
            let text = lfn_text(raw.subrange(at, at + 32), 0);
            let e = entry_of(raw.subrange(at + 32, at + 64)).unwrap();
            scan(raw, at, Seq::empty(), true) == seq![
                (at + 32, EntryView { name: text, ..e }),
            ] + scan(raw, at + 64, Seq::empty(), true)
        }),
{
    let first = raw.subrange(at, at + 32);
    let second = raw.subrange(at + 32, at + 64);
    let text = lfn_text(first, 0);
    let pending = seq![(part_number(first), text)];
    law_long_name_joined(Seq::empty(), pending, part_number(first), text);
    assert(first[0] == raw[at] && first[11] == raw[at + 11]);
    assert(second[0] == raw[at + 32] && second[11] == raw[at + 43]);
    assert(is_long(first) && !is_long(second));
    assert(after_slot(first, Seq::empty(), true) =~= pending);
    assert(renamed(entry_of(second).unwrap(), pending).name == text);
    let rest = scan(raw, at + 64, Seq::empty(), true);
    assert(raw.subrange(at + 32, at + 32 + 32) =~= second);
    assert(scan(raw, at + 32, pending, true) == seq![
        (at + 32, renamed(entry_of(second).unwrap(), pending)),
    ] + rest);
    assert(scan(raw, at, Seq::empty(), true) == scan(raw, at + 32, pending, true));
}

/// A directory ends at the first slot that starts with 0.
pub proof fn law_directory_ends(raw: Seq<u8>, at: int, pending: Seq<(u8, Seq<char>)>, long: bool)
    ensures
        at + 32 > raw.len() || raw[at] == 0 ==> scan(raw, at, pending, long).len() == 0,
{
}

/// The listing of a directory has the entries that a search goes through, in the same order.
pub proof fn law_listing_is_scan(raw: Seq<u8>, i: int)
    ensures
        listing(raw).len() == scan(raw, 0, Seq::empty(), true).len(),
        0 <= i < listing(raw).len() ==> listing(raw)[i] == scan(raw, 0, Seq::empty(), true)[i].1,
{
}

/// A search finds the first entry that has the name, and none exactly if no entry has it.
pub proof fn law_first_with_name(list: Seq<(int, EntryView)>, name: Seq<char>)
    ensures
        match first_named(list, name) {
            Some(found) => exists|k: int|
                0 <= k < list.len() && #[trigger] list[k] == found && found.1.name == name && forall|
                    j: int,
                |
                    0 <= j < k ==> (#[trigger] list[j]).1.name != name,
            None => forall|j: int| 0 <= j < list.len() ==> (#[trigger] list[j]).1.name != name,
        },
    decreases list.len(),
{
    if list.len() > 0 && list[0].1.name != name {
        let rest = list.skip(1);
        law_first_with_name(rest, name);
        assert(forall|j: int| 0 <= j < rest.len() ==> #[trigger] rest[j] == list[j + 1]);
        match first_named(rest, name) {
            Some(found) => {
                let k = choose|k: int|
                    0 <= k < rest.len() && #[trigger] rest[k] == found && found.1.name == name
                        && forall|j: int| 0 <= j < k ==> (#[trigger] rest[j]).1.name != name;
                assert(list[k + 1] == found);
                assert forall|j: int| 0 <= j < k + 1 implies (#[trigger] list[j]).1.name
                    != name by {
                    if j > 0 {
                        assert(rest[j - 1] == list[j]);
                    }
                }
            },
            None => {
                assert forall|j: int| 0 <= j < list.len() implies (#[trigger] list[j]).1.name
                    != name by {
                    if j > 0 {
                        assert(rest[j - 1] == list[j]);
                    }
                }
            },
        }
    }
}

/// The file that is opened is the first entry that has the name and is no directory.
pub proof fn law_first_file_with_name(list: Seq<EntryView>, name: Seq<char>)
    ensures
        match first_file(list, name) {
            Some(found) => exists|k: int|
                0 <= k < list.len() && #[trigger] list[k] == found && found.name == name
                    && found.attributes & 0x10 == 0 && forall|j: int|
                    0 <= j < k ==> (#[trigger] list[j]).name != name || list[j].attributes & 0x10
                        != 0,
            None => forall|j: int|
                0 <= j < list.len() ==> (#[trigger] list[j]).name != name || list[j].attributes
                    & 0x10 != 0,
        },
    decreases list.len(),
{
    if list.len() > 0 && !(list[0].name == name && list[0].attributes & 0x10 == 0) {
        let rest = list.skip(1);
        law_first_file_with_name(rest, name);
        assert(forall|j: int| 0 <= j < rest.len() ==> #[trigger] rest[j] == list[j + 1]);
        match first_file(rest, name) {
            Some(found) => {
                let k = choose|k: int|
                    0 <= k < rest.len() && #[trigger] rest[k] == found && found.name == name
                        && found.attributes & 0x10 == 0 && forall|j: int|
                        0 <= j < k ==> (#[trigger] rest[j]).name != name || rest[j].attributes
                            & 0x10 != 0;
                assert(list[k + 1] == found);
                assert forall|j: int| 0 <= j < k + 1 implies (#[trigger] list[j]).name != name
                    || list[j].attributes & 0x10 != 0 by {
                    if j > 0 {
                        assert(rest[j - 1] == list[j]);
                    }
                }
            },
            None => {
                assert forall|j: int| 0 <= j < list.len() implies (#[trigger] list[j]).name != name
                    || list[j].attributes & 0x10 != 0 by {
                    if j > 0 {
                        assert(rest[j - 1] == list[j]);
                    }
                }
            },
        }
    }
}

/// A new entry goes into the first slot that is free: the slots are 32 bytes apart, and each
/// one before it is in use. Where there is none, all are in use.
pub proof fn law_first_free_slot(raw: Seq<u8>, from: int)
    requires
        0 <= from,
        from % 32 == 0,
    ensures
        match free_slot(raw, from) {
            Some(at) => {
                &&& from <= at
                &&& at % 32 == 0
                &&& at + 32 <= raw.len()
                &&& raw[at] == 0 || raw[at] == 0xE5
                &&& forall|i: int|
                    from <= i < at && i % 32 == 0 ==> #[trigger] raw[i] != 0 && raw[i] != 0xE5
            },
            None => forall|i: int|
                from <= i && i + 32 <= raw.len() && i % 32 == 0 ==> #[trigger] raw[i] != 0
                    && raw[i] != 0xE5,
        },
    decreases raw.len() - from,
{
    if from + 32 <= raw.len() && raw[from] != 0xE5 && raw[from] != 0 {
        law_first_free_slot(raw, from + 32);
    }
}

/// Pointing an entry to new contents sets its cluster number and its size, and no other byte
/// of the directory.
#[verifier::rlimit(40)]
pub proof fn law_entry_pointed(raw: Seq<u8>, at: int, first_cluster: u32, size: u32, i: int)
    requires
        0 <= at,
        at + 32 <= raw.len(),
    ensures
        ({
            let after = pointed(raw, at, first_cluster, size);
            &&& after.len() == raw.len()
            &&& bytes::has16(after, at + 20, first_cluster as int / 65536)
            &&& bytes::has16(after, at + 26, first_cluster as int % 65536)
            &&& bytes::has32(after, at + 28, size as int)
            &&& 0 <= i < raw.len() && i != at + 20 && i != at + 21 && !(at + 26 <= i < at + 32)
                ==> after[i] == raw[i]
        }),
{
    let after = pointed(raw, at, first_cluster, size);
    lemma_parts(first_cluster);
    lemma_parts(size);
    assert(after[at + 20] == bytes::byte_of(first_cluster, 2));
    assert(after[at + 21] == bytes::byte_of(first_cluster, 3));
    assert(after[at + 26] == bytes::byte_of(first_cluster, 0));
    assert(after[at + 27] == bytes::byte_of(first_cluster, 1));
    assert(after[at + 28] == bytes::byte_of(size, 0));
    assert(after[at + 29] == bytes::byte_of(size, 1));
    assert(after[at + 30] == bytes::byte_of(size, 2));
    assert(after[at + 31] == bytes::byte_of(size, 3));
}

proof fn lemma_parts(v: u32)
    ensures
        bytes::byte_of(v, 0) == v as int % 256,
        bytes::byte_of(v, 0) == v as int % 65536 % 256,
        bytes::byte_of(v, 1) == v as int / 256 % 256,
        bytes::byte_of(v, 1) == v as int % 65536 / 256,
        bytes::byte_of(v, 2) == v as int / 65536 % 256,
        bytes::byte_of(v, 3) == v as int / 16777216,
        bytes::byte_of(v, 3) == v as int / 65536 / 256,
{
}

/// Resizing an entry sets its size and no other byte of the directory.
pub proof fn law_entry_resized(raw: Seq<u8>, at: int, size: u32, i: int)
    requires
        0 <= at,
        at + 32 <= raw.len(),
    ensures
        ({
            let after = resized(raw, at, size);
            &&& after.len() == raw.len()
            &&& bytes::has32(after, at + 28, size as int)
            &&& 0 <= i < raw.len() && !(at + 28 <= i < at + 32) ==> after[i] == raw[i]
        }),
{
    bytes::law_number_bytes(size);
    let after = resized(raw, at, size);
    assert(after[at + 28 + 0] == bytes::le32_bytes(size)[0] && after[at + 28 + 1]
        == bytes::le32_bytes(size)[1] && after[at + 28 + 2] == bytes::le32_bytes(size)[2]
        && after[at + 28 + 3] == bytes::le32_bytes(size)[3]);
}

/// The names of a listing follow one another, each with a zero behind it.
pub proof fn law_names_listed(a: Seq<EntryView>, e: EntryView, b: Seq<EntryView>)
    ensures
        name_list(a + seq![e] + b) == name_list(a) + vstd::utf8::encode_utf8(e.name) + seq![0u8]
            + name_list(b),
        name_list(Seq::empty()) == Seq::<u8>::empty(),
    decreases b.len(),
{
    let all = a + seq![e] + b;
    if b.len() == 0 {
        assert(all.drop_last() =~= a);
        assert(name_list(all) =~= name_list(a) + vstd::utf8::encode_utf8(e.name) + seq![0u8]
            + name_list(b));
    } else {
        law_names_listed(a, e, b.drop_last());
        assert(all.drop_last() =~= a + seq![e] + b.drop_last());
        assert(name_list(all) =~= name_list(a) + vstd::utf8::encode_utf8(e.name) + seq![0u8]
            + name_list(b));
    }
}

/// No part of a long name is lost when a further one is found, and no other comes in.
pub proof fn law_parts_kept(parts: Seq<(u8, Seq<char>)>, number: u8, text: Seq<char>)
    ensures
        with_part(parts, number, text).to_multiset() == parts.to_multiset().insert((number, text)),
    decreases parts.len(),
{
    broadcast use vstd::seq_lib::group_to_multiset_ensures;

    if parts.len() > 0 && parts.last().0 > number {
        let front = parts.drop_last();
        law_parts_kept(front, number, text);
        assert(front.push(parts.last()) =~= parts);
    }
}

/// Two slots of a long name, the second part first as they stand on a disk, make up the name
/// of the entry behind them: the text of the first part, then that of the second.
#[verifier::rlimit(40)]
pub proof fn law_two_part_name(raw: Seq<u8>, at: int)
    requires
        0 <= at,
        at + 96 <= raw.len(),
        raw[at] == 0x42,
        raw[at + 11] == 0x0F,
        raw[at + 32] == 0x01,
        raw[at + 43] == 0x0F,
        raw[at + 64] != 0,
        raw[at + 64] != 0xE5,
        raw[at + 75] != 0x0F,
        raw[at + 75] & 0x08 == 0,
        lfn_text(raw.subrange(at + 32, at + 64), 0).len() > 0,
    ensures
        ({
            let name = lfn_text(raw.subrange(at + 32, at + 64), 0) + lfn_text(
                raw.subrange(at, at + 32),
                0,
            );
            let e = entry_of(raw.subrange(at + 64, at + 96)).unwrap();
            scan(raw, at, Seq::empty(), true) == seq![
                (at + 64, EntryView { name, ..e }),
            ] + scan(raw, at + 96, Seq::empty(), true)
        }),
{
    let a = raw.subrange(at, at + 32);
    let b = raw.subrange(at + 32, at + 64);
    let c = raw.subrange(at + 64, at + 96);
    let second = lfn_text(a, 0);
    let first = lfn_text(b, 0);
    assert(a[0] == raw[at] && a[11] == raw[at + 11]);
    assert(b[0] == raw[at + 32] && b[11] == raw[at + 43]);
    assert(c[0] == raw[at + 64] && c[11] == raw[at + 75]);
    let one = seq![(2u8, second)];
    let two = seq![(1u8, first), (2u8, second)];
    assert(after_slot(a, Seq::empty(), true) =~= one);
    reveal_with_fuel(with_part, 3);
    assert(one.drop_last() =~= Seq::empty());
    assert(after_slot(b, one, true) =~= two);
    law_long_name_joined(seq![(1u8, first)], one, 1, first);
    law_long_name_joined(Seq::empty(), one, 2, second);
    assert(seq![(1u8, first)] + one =~= two);
    assert(joined(two) =~= first + second);
    let e = entry_of(c).unwrap();
    assert(renamed(e, two) == EntryView { name: first + second, ..e });
    assert(raw.subrange(at + 32, at + 32 + 32) =~= b);
    assert(raw.subrange(at + 64, at + 64 + 32) =~= c);
    let rest = scan(raw, at + 96, Seq::empty(), true);
    assert(scan(raw, at + 64, two, true) == seq![(at + 64, renamed(e, two))] + rest);
    assert(scan(raw, at + 32, one, true) == scan(raw, at + 64, two, true));
    assert(scan(raw, at, Seq::empty(), true) == scan(raw, at + 32, one, true));
}

} // verus!
