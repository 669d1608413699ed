//! The initial archive, byte by byte.
use vstd::prelude::*;

use crate::initrd::{
    entries_from, entry_of, header_of, hex_number, hex_value, is_padding, next_header,
    padded, tally, trailer, ArchiveEnd, Entry,
};

verus! {

/// The digit for a number below 16: `0` to `9`, then `a` to `f`.
pub open spec fn digit(d: int) -> int {
    if d < 10 {
        48 + d
    } else {
        87 + d
    }
}

/// Whether the eight hexadecimal digits of `v` stand at `at`, the highest first.
pub open spec fn has_hex8(data: Seq<u8>, at: int, v: int) -> bool {
    &&& 0 <= v < 0x1_0000_0000
    &&& data[at] == digit(v / 0x1000_0000)
    &&& data[at + 1] == digit(v / 0x100_0000 % 16)
    &&& data[at + 2] == digit(v / 0x10_0000 % 16)
    &&& data[at + 3] == digit(v / 0x1_0000 % 16)
    &&& data[at + 4] == digit(v / 0x1000 % 16)
    &&& data[at + 5] == digit(v / 0x100 % 16)
    &&& data[at + 6] == digit(v / 0x10 % 16)
    &&& data[at + 7] == digit(v % 16)
}

/// Eight hexadecimal digits read as the number that they are the digits of.
pub proof fn law_hex_read(data: Seq<u8>, at: int, v: int)
    requires
        has_hex8(data, at, v),
    ensures
        hex_number(data, at, 8) == Some(v),
{
    assert(hex_number(data, at, 0) == Some(0int));
    lemma_hex_step(data, at, 0, v / 0x1000_0000);
    lemma_hex_step(data, at, 1, v / 0x100_0000);
    lemma_hex_step(data, at, 2, v / 0x10_0000);
    lemma_hex_step(data, at, 3, v / 0x1_0000);
    lemma_hex_step(data, at, 4, v / 0x1000);
    lemma_hex_step(data, at, 5, v / 0x100);
    lemma_hex_step(data, at, 6, v / 0x10);
    lemma_hex_step(data, at, 7, v);
}

#[verifier::rlimit(40)]
proof fn lemma_hex_step(data: Seq<u8>, at: int, n: int, q: int)
    requires
        0 <= n,
        0 <= q,
        hex_number(data, at, n) == Some(q / 16),
        data[at + n] == digit(q % 16),
    ensures
        hex_number(data, at, n + 1) == Some(q),
{
    lemma_digit(q % 16);
    assert(hex_value(data[at + n]) == Some(q % 16));
    assert(q / 16 * 16 + q % 16 == q);
}

proof fn lemma_digit(d: int)
    requires
        0 <= d < 16,
    ensures
        hex_value(digit(d) as u8) == Some(d),
        0 <= digit(d) < 256,
{
}

/// Only digits and the letters `a` to `f` count as hexadecimal digits.
pub proof fn law_hex_digits(b: u8)
    ensures
        hex_value(b) matches Some(d) ==> 0 <= d < 16 && b == digit(d),
        hex_value(b) is None ==> forall|d: int| 0 <= d < 16 ==> b != #[trigger] digit(d),
{
}

/// A number is rounded up to the next multiple of four, by less than four.
pub proof fn law_padded(n: int)
    ensures
        padded(n) % 4 == 0,
        n <= padded(n) < n + 4,
{
}

/// Whether a record with a name and data of the given lengths starts at `at`: the magic
/// "070701" or "070702", the length of the data at byte 54, that of the name with its closing
/// zero at byte 94, the name at byte 110, and the data behind it on a multiple of four.
pub open spec fn has_record(data: Seq<u8>, at: int, name: Seq<u8>, file: Seq<u8>) -> bool {
    let body = at + 110 + padded((name.len() + 1) as int);
    &&& 0 <= at
    &&& body + file.len() <= data.len()
    &&& at + 111 + name.len() <= data.len()
    &&& name.len() < 4096
    &&& data.subrange(at, at + 5) == seq![48u8, 55, 48, 55, 48]
    &&& data[at + 5] == 49 || data[at + 5] == 50
    &&& has_hex8(data, at + 54, file.len() as int)
    &&& has_hex8(data, at + 94, (name.len() + 1) as int)
    &&& data.subrange(at + 110, at + 110 + name.len()) == name
    &&& data[at + 110 + name.len()] == 0
    &&& data.subrange(body, body + file.len()) == file
}

/// A record is read as what it says: where its data are, how long they are, and where the
/// next record starts.
#[verifier::rlimit(40)]
pub proof fn law_record_read(data: Seq<u8>, at: int, name: Seq<u8>, file: Seq<u8>)
    requires
        has_record(data, at, name, file),
        data.len() + 4 <= usize::MAX,
    ensures
        header_of(data, at) matches Some(h) && {
            &&& h.namesize == name.len() + 1
            &&& h.filesize == file.len()
            &&& data.subrange(h.data_start as int, h.data_start + h.filesize) == file
            &&& h.next == h.data_start + padded(file.len() as int)
            &&& next_header(at, h) == at + 110 + padded((name.len() + 1) as int) + padded(file.len() as int)
        },
{
    law_hex_read(data, at + 54, file.len() as int);
    law_hex_read(data, at + 94, (name.len() + 1) as int);
    let five = data.subrange(at, at + 5);
    let magic = seq![48u8, 55, 48, 55, 48];
    assert(five[0] == data[at] && five[1] == data[at + 1] && five[2] == data[at + 2] && five[3]
        == data[at + 3] && five[4] == data[at + 4]);
    assert(magic[0] == 48 && magic[1] == 55 && magic[2] == 48 && magic[3] == 55 && magic[4] == 48);
}

/// A record whose name ends in a slash asks for a directory of that name without the slash,
/// any other for a file with its data. A name with two dots side by side asks for nothing,
/// nor does one that is no text.
pub proof fn law_record_asks(data: Seq<u8>, at: int, name: Seq<u8>, file: Seq<u8>)
    requires
        has_record(data, at, name, file),
        data.len() + 4 <= usize::MAX,
        name.len() > 0,
    ensures
        ({
            let e = entry_of(data, at, header_of(data, at).unwrap());
            &&& e.offset == at
            &&& e.name_start == at + 110
            &&& data.subrange(e.data_start as int, e.data_start + e.data_len) == file
            &&& e.kind is BadName <==> !vstd::utf8::valid_utf8(name)
            &&& e.kind is Traversal <==> vstd::utf8::valid_utf8(name) && exists|i: int|
                0 <= i < name.len() - 1 && #[trigger] name[i] == 46 && name[i + 1] == 46
            &&& e.kind is Directory ==> name.last() == 47 && e.name_len == name.len() - 1
            &&& e.kind is File ==> name.last() != 47 && e.name_len == name.len()
        }),
{
    law_record_read(data, at, name, file);
    let h = header_of(data, at).unwrap();
    assert(data.subrange(at + 110, at + 110 + h.namesize - 1) =~= name);
}

/// The entries of an archive from a record on are the one that it asks for and those from
/// the next record on. The record "TRAILER!!!" ends the archive.
#[verifier::rlimit(40)]
pub proof fn law_records_in_a_row(data: Seq<u8>, at: int, name: Seq<u8>, file: Seq<u8>)
    requires
        has_record(data, at, name, file),
        data.len() + 4 <= usize::MAX,
        name.len() > 1,
    ensures
        ({
            let next = at + 110 + padded((name.len() + 1) as int) + padded(file.len() as int);
            let e = entry_of(data, at, header_of(data, at).unwrap());
            if name == seq![84u8, 82, 65, 73, 76, 69, 82, 33, 33, 33] {
                entries_from(data, at) == (Seq::<Entry>::empty(), ArchiveEnd::Trailer)
            } else if next < data.len() {
                &&& entries_from(data, at).0 == seq![e] + entries_from(data, next).0
                &&& entries_from(data, at).1 == entries_from(data, next).1
            } else {
                entries_from(data, at).0 == seq![e]
            }
        }),
{
    law_record_read(data, at, name, file);
    let h = header_of(data, at).unwrap();
    assert(data.subrange(at, at + 5)[0] == data[at]);
    assert(seq![48u8, 55, 48, 55, 48][0] == 48);
    assert(!is_padding(data, at));
    assert(crate::initrd::name_of(data, at, h) =~= name);
    assert(trailer() =~= seq![84u8, 82, 65, 73, 76, 69, 82, 33, 33, 33]);
}

/// Zero bytes between records are passed over, and an archive ends where no further header
/// fits or where what stands there is none.
pub proof fn law_archive_ends(data: Seq<u8>, at: int)
    ensures
        at + 110 > data.len() ==> entries_from(data, at) == (
            Seq::<Entry>::empty(),
            ArchiveEnd::TruncatedHeader(at as usize),
        ),
        at + 110 <= data.len() && (forall|i: int| at <= i < at + 6 ==> #[trigger] data[i] == 0)
            ==> entries_from(data, at) == entries_from(data, at + 1),
        at + 110 <= data.len() && data[at] != 48 && data[at] != 0 ==> entries_from(data, at) == (
            Seq::<Entry>::empty(),
            ArchiveEnd::BadHeader(at as usize),
        ),
{
}

/// Files count if they were created, directories in any case, and other entries never.
pub proof fn law_tally(entries: Seq<Entry>, created: Seq<Result<(), u64>>, e: Entry)
    requires
        created.len() == entries.len() + 1,
    ensures
        ({
            let before = tally(entries, created);
            let after = tally(entries.push(e), created);
            &&& e.kind is File && created.last() is Ok ==> after == (before.0 + 1, before.1)
            &&& e.kind is File && created.last() is Err ==> after == before
            &&& e.kind is Directory ==> after == (before.0, before.1 + 1)
            &&& e.kind is BadName || e.kind is Traversal ==> after == before
        }),
        tally(Seq::empty(), created) == (0int, 0int),
{
    assert(entries.push(e).drop_last() =~= entries);
}

} // verus!
