//! The initial file system: a cpio archive in the "newc" format.
//!
//! Each entry has a header of 110 bytes with numbers of eight hexadecimal digits, a name
//! that ends in a zero byte, and the data. Name and data are padded to four bytes.
use vstd::prelude::*;

use crate::bytes;
use crate::serial;

verus! {

/// Size of an entry's header.
pub const HEADER_SIZE: usize = 110;

/// The longest name, with its zero byte.
pub const MAX_NAME: u64 = 4096;

/// What an entry asks for.
#[derive(Debug, Clone, Copy, PartialEq, Eq, Structural)]
pub enum EntryKind {
    /// Create a directory.
    Directory,
    /// Create a file with the entry's data.
    File,
    /// Nothing: the name is not valid UTF-8.
    BadName,
    /// Nothing: the name holds "..".
    Traversal,
}

/// An entry of the archive, as places in it.
#[derive(Debug, Clone, Copy, PartialEq, Eq, Structural)]
pub struct Entry {
    pub kind: EntryKind,
    pub offset: usize,
    pub name_start: usize,
    pub name_len: usize,
    pub data_start: usize,
    pub data_len: usize,
}

/// Why reading stopped.
#[derive(Debug, Clone, Copy, PartialEq, Eq, Structural)]
pub enum ArchiveEnd {
    /// The end marker was found.
    Trailer,
    /// The archive ends with an entry.
    EndOfData,
    /// Too few bytes are left for a header here.
    TruncatedHeader(usize),
    /// There is no valid header here.
    BadHeader(usize),
}

/// The numbers of a header.
#[derive(Debug, Clone, Copy, PartialEq, Eq, Structural)]
pub struct Header {
    pub namesize: usize,
    pub filesize: usize,
    pub data_start: usize,
    pub next: usize,
}

/// The value of a hexadecimal digit; only lower-case letters count.
pub open spec fn hex_value(b: u8) -> Option<int> {
    if 0x30 <= b <= 0x39 {
        Some(b - 0x30)
    } else if 0x61 <= b <= 0x66 {
        Some(b - 0x61 + 10)
    } else {
        None
    }
}

/// The number that `n` hexadecimal digits at `at` stand for.
pub open spec fn hex_number(data: Seq<u8>, at: int, n: int) -> Option<int>
    decreases n,
{
    if n <= 0 {
        Some(0)
    } else {
        match (hex_number(data, at, n - 1), hex_value(data[at + n - 1])) {
            (Some(high), Some(d)) => Some(high * 16 + d),
            _ => None,
        }
    }
}

/// `n` rounded up to a multiple of four.
pub open spec fn padded(n: int) -> int {
    (n + 3) / 4 * 4
}

/// What the header at `at` says, if it is valid: the magic, a name of 1 to 4096 bytes
/// that ends in a zero byte, and name and data inside the archive.
pub open spec fn header_of(data: Seq<u8>, at: int) -> Option<Header> {
    if at + 110 > data.len() {
        None
    } else if !(data[at] == 0x30 && data[at + 1] == 0x37 && data[at + 2] == 0x30 && data[at + 3]
        == 0x37 && data[at + 4] == 0x30 && (data[at + 5] == 0x31 || data[at + 5] == 0x32)) {
        None
    } else {
        match (hex_number(data, at + 94, 8), hex_number(data, at + 54, 8)) {
            (Some(namesize), Some(filesize)) => {
                let name_start = at + 110;
                let data_start = name_start + padded(namesize);
                if namesize == 0 || namesize > 4096 {
                    None
                } else if name_start + namesize > data.len() || data_start + filesize
                    > data.len() {
                    None
                } else if data[name_start + namesize - 1] != 0 {
                    None
                } else {
                    Some(
                        Header {
                            namesize: namesize as usize,
                            filesize: filesize as usize,
                            data_start: data_start as usize,
                            next: (data_start + padded(filesize)) as usize,
                        },
                    )
                }
            },
            _ => None,
        }
    }
}

/// Whether two dots stand side by side.
pub open spec fn has_dot_dot(name: Seq<u8>) -> bool {
    exists|i: int| 0 <= i < name.len() - 1 && #[trigger] name[i] == 0x2E && name[i + 1] == 0x2E
}

/// "TRAILER!!!", the name of the end marker.
pub open spec fn trailer() -> Seq<u8> {
    seq![0x54u8, 0x52, 0x41, 0x49, 0x4C, 0x45, 0x52, 0x21, 0x21, 0x21]
}

/// The name of the entry at `at`.
pub open spec fn name_of(data: Seq<u8>, at: int, h: Header) -> Seq<u8> {
    data.subrange(at + 110, at + 110 + h.namesize - 1)
}

/// What the entry at `at` asks for. A name that ends in a slash is a directory.
pub open spec fn entry_of(data: Seq<u8>, at: int, h: Header) -> Entry {
    let name = name_of(data, at, h);
    let kind = if !vstd::utf8::valid_utf8(name) {
        EntryKind::BadName
    } else if has_dot_dot(name) {
        EntryKind::Traversal
    } else if name.len() > 0 && name.last() == 0x2F {
        EntryKind::Directory
    } else {
        EntryKind::File
    };
    Entry {
        kind,
        offset: at as usize,
        name_start: (at + 110) as usize,
        name_len: if kind == EntryKind::Directory {
            (h.namesize - 2) as usize
        } else {
            (h.namesize - 1) as usize
        },
        data_start: h.data_start,
        data_len: h.filesize,
    }
}

/// Where the entry behind the one at `at` starts.
pub open spec fn next_header(at: int, h: Header) -> int {
    at + 110 + padded(h.namesize as int) + padded(h.filesize as int)
}

/// Whether six zero bytes stand at `at`: padding.
pub open spec fn is_padding(data: Seq<u8>, at: int) -> bool {
    data[at] == 0 && data[at + 1] == 0 && data[at + 2] == 0 && data[at + 3] == 0 && data[at + 4]
        == 0 && data[at + 5] == 0
}

/// The entries from `at` on, in order, and why they end. The directory "/" is not
/// among them.
pub open spec fn entries_from(data: Seq<u8>, at: int) -> (Seq<Entry>, ArchiveEnd)
    decreases data.len() - at,
{
    if at + 110 > data.len() {
        (Seq::empty(), ArchiveEnd::TruncatedHeader(at as usize))
    } else if is_padding(data, at) {
        entries_from(data, at + 1)
    } else {
        match header_of(data, at) {
            None => (Seq::empty(), ArchiveEnd::BadHeader(at as usize)),
            Some(h) => {
                let name = name_of(data, at, h);
                let e = entry_of(data, at, h);
                let accepted = e.kind == EntryKind::Directory || e.kind == EntryKind::File;
                let here = if e.kind == EntryKind::Directory && e.name_len == 0 {
                    Seq::empty()
                } else {
                    seq![e]
                };
                let next = next_header(at, h);
                if name == trailer() {
                    (Seq::empty(), ArchiveEnd::Trailer)
                } else if next >= data.len() {
                    (
                        here,
                        if accepted {
                            ArchiveEnd::EndOfData
                        } else {
                            ArchiveEnd::TruncatedHeader(next as usize)
                        },
                    )
                } else {
                    let rest = entries_from(data, next);
                    (here + rest.0, rest.1)
                }
            },
        }
    }
}

/// Parse a number of eight hexadecimal digits.
pub fn parse_hex8(header: &[u8], offset: usize) -> (r: Result<u64, ()>)
    ensures
        match r {
            Ok(v) => offset + 8 <= header@.len() && hex_number(header@, offset as int, 8) == Some(
                v as int,
            ) && v <= 0xFFFF_FFFF,
            Err(_) => offset + 8 > header@.len() || hex_number(header@, offset as int, 8) is None,
        },
{
    if header.len() < 8 || offset > header.len() - 8 {
        return Err(());
    }
    assert(offset + 8 <= header.len());
    let mut value: u64 = 0;
    let mut i: usize = 0;
    let ghost mut bound: int = 1;
    proof {
        vstd::arithmetic::power::lemma_pow0(16);
    }
    while i < 8
        invariant
            i <= 8,
            offset + 8 <= header.len(),
            header.len() == header@.len(),
            hex_number(header@, offset as int, i as int) == Some(value as int),
            value < bound,
            bound == vstd::arithmetic::power::pow(16, i as nat),
            bound <= 0x1_0000_0000,
        decreases 8 - i,
    {
        let b: u8 = header[offset + i];
        let d: u64 = if b >= 0x30 && b <= 0x39 {
            (b - 0x30) as u64
        } else if b >= 0x61 && b <= 0x66 {
            (b - 0x61 + 10) as u64
        } else {
            proof {
                lemma_hex_none(header@, offset as int, i as int + 1, 8);
            }
            return Err(());
        };
        proof {
            reveal_with_fuel(vstd::arithmetic::power::pow, 10);
            bound = bound * 16;
            vstd::arithmetic::power::lemma_pow_increases(16, (i + 1) as nat, 8);
        }
        value = value * 16 + d;
        i = i + 1;
    }
    Ok(value)
}

proof fn lemma_hex_none(data: Seq<u8>, at: int, i: int, n: int)
    requires
        i <= n,
        hex_number(data, at, i) is None,
    ensures
        hex_number(data, at, n) is None,
    decreases n,
{
    if i < n {
        lemma_hex_none(data, at, i, n - 1);
    }
}

/// Parse the header at the given offset.
pub fn parse_header(data: &[u8], offset: usize) -> (r: Result<Header, ()>)
    requires
        data@.len() + 4 <= usize::MAX,
    ensures
        match r {
            Ok(h) => header_of(data@, offset as int) == Some(h) && 0 < h.namesize <= 4096
                && offset + 110 + h.namesize <= data@.len() && h.data_start == offset + 110
                + padded(h.namesize as int) && h.data_start + h.filesize <= data@.len() && h.next
                == h.data_start + padded(h.filesize as int),
            Err(_) => header_of(data@, offset as int) is None,
        },
{
    let len: usize = data.len();
    if len < HEADER_SIZE || offset > len - HEADER_SIZE {
        return Err(());
    }
    if !(data[offset] == 0x30 && data[offset + 1] == 0x37 && data[offset + 2] == 0x30 && data[offset
        + 3] == 0x37 && data[offset + 4] == 0x30 && (data[offset + 5] == 0x31 || data[offset + 5]
        == 0x32)) {
        return Err(());
    }
    let namesize: u64 = match parse_hex8(data, offset + 94) {
        Ok(v) => v,
        Err(_) => {
            return Err(());
        },
    };
    let filesize: u64 = match parse_hex8(data, offset + 54) {
        Ok(v) => v,
        Err(_) => {
            return Err(());
        },
    };
    if namesize == 0 || namesize > MAX_NAME {
        return Err(());
    }
    let name_start: usize = offset + HEADER_SIZE;
    let left: u64 = (len - name_start) as u64;
    let name_padded: u64 = (namesize + 3) / 4 * 4;
    if namesize > left || name_padded > left || filesize > left - name_padded {
        return Err(());
    }
    let data_start: usize = name_start + name_padded as usize;
    if data[name_start + namesize as usize - 1] != 0 {
        return Err(());
    }
    let file_padded: usize = (filesize as usize + 3) / 4 * 4;
    Ok(
        Header {
            namesize: namesize as usize,
            filesize: filesize as usize,
            data_start,
            next: data_start + file_padded,
        },
    )
}

fn contains_dot_dot(name: &[u8]) -> (r: bool)
    ensures
        r == has_dot_dot(name@),
{
    let mut i: usize = 1;
    while i < name.len()
        invariant
            1 <= i,
            i > 1 ==> i <= name@.len(),
            forall|k: int| 0 <= k < i - 1 ==> !(#[trigger] name@[k] == 0x2E && name@[k + 1] == 0x2E),
        decreases name@.len() - i,
    {
        if name[i - 1] == 0x2E && name[i] == 0x2E {
            assert(name@[i - 1] == 0x2E && name@[(i - 1) + 1] == 0x2E);
            return true;
        }
        i = i + 1;
    }
    false
}

fn is_trailer(name: &[u8]) -> (r: bool)
    ensures
        r == (name@ == trailer()),
{
    if name.len() != 10 {
        return false;
    }
    let r: bool = name[0] == 0x54 && name[1] == 0x52 && name[2] == 0x41 && name[3] == 0x49
        && name[4] == 0x4C && name[5] == 0x45 && name[6] == 0x52 && name[7] == 0x21 && name[8]
        == 0x21 && name[9] == 0x21;
    proof {
        if r {
            assert(name@ =~= trailer());
        }
    }
    r
}

/// Read the archive: what to create, in order. Padding between entries is skipped, as
/// are names that are not valid UTF-8 and names with "..". The size is noted on the console.
pub fn load_initrd(initrd_data: &[u8], out: &mut Vec<u8>) -> (r: (Vec<Entry>, ArchiveEnd))
    requires
        initrd_data@.len() + 4 <= usize::MAX,
    ensures
        (r.0@, r.1) == entries_from(initrd_data@, 0),
        final(out)@ == old(out)@ + serial::text("[INITRD] Loading initrd: "@) + serial::hex_text(
            initrd_data@.len() as u64,
        ) + serial::text(" bytes\n"@),
{
    let data: &[u8] = initrd_data;
    serial::write_str(out, "[INITRD] Loading initrd: ");
    serial::write_hex(out, data.len() as u64);
    serial::write_str(out, " bytes\n");
    let ghost said = out@;
    let mut entries: Vec<Entry> = Vec::new();
    let mut offset: usize = 0;
    assert(entries@ + entries_from(data@, 0).0 =~= entries_from(data@, 0).0);
    loop
        invariant
            data@.len() + 4 <= usize::MAX,
            data@ == initrd_data@,
            out@ == said,
            said == old(out)@ + serial::text("[INITRD] Loading initrd: "@) + serial::hex_text(
                initrd_data@.len() as u64,
            ) + serial::text(" bytes\n"@),
            offset <= data@.len() + 4,
            entries@ + entries_from(data@, offset as int).0 == entries_from(data@, 0).0,
            entries_from(data@, offset as int).1 == entries_from(data@, 0).1,
        decreases data@.len() + 4 - offset,
    {
        let ghost rest = entries_from(data@, offset as int);
        if data.len() < HEADER_SIZE || offset > data.len() - HEADER_SIZE {
            assert(entries@ + rest.0 =~= entries@);
            return (entries, ArchiveEnd::TruncatedHeader(offset));
        }
        if data[offset] == 0 && data[offset + 1] == 0 && data[offset + 2] == 0 && data[offset + 3]
            == 0 && data[offset + 4] == 0 && data[offset + 5] == 0 {
            offset = offset + 1;
            continue;
        }
        let h: Header = match parse_header(data, offset) {
            Ok(h) => h,
            Err(_) => {
                assert(entries@ + rest.0 =~= entries@);
                return (entries, ArchiveEnd::BadHeader(offset));
            },
        };
        let name_start: usize = offset + HEADER_SIZE;
        let name: &[u8] = &data[name_start..name_start + h.namesize - 1];
        assert(name@ == name_of(data@, offset as int, h));
        if is_trailer(name) {
            assert(entries@ + rest.0 =~= entries@);
            return (entries, ArchiveEnd::Trailer);
        }
        let kind: EntryKind = if bytes::utf8_text(name).is_none() {
            EntryKind::BadName
        } else if contains_dot_dot(name) {
            EntryKind::Traversal
        } else if name.len() > 0 && name[name.len() - 1] == 0x2F {
            EntryKind::Directory
        } else {
            EntryKind::File
        };
        let name_len: usize = if kind == EntryKind::Directory {
            h.namesize - 2
        } else {
            h.namesize - 1
        };
        let entry: Entry = Entry {
            kind,
            offset,
            name_start,
            name_len,
            data_start: h.data_start,
            data_len: h.filesize,
        };
        assert(entry == entry_of(data@, offset as int, h));
        let ghost before = entries@;
        if !(kind == EntryKind::Directory && name_len == 0) {
            entries.push(entry);
            assert(entries@ =~= before + seq![entry]);
        } else {
            assert(entries@ =~= before + Seq::<Entry>::empty());
        }
        if (kind == EntryKind::Directory || kind == EntryKind::File) && h.next >= data.len() {
            return (entries, ArchiveEnd::EndOfData);
        }
        proof {
            let after = entries_from(data@, h.next as int);
            assert(entries@ + after.0 =~= before + rest.0);
        }
        offset = h.next;
    }
}

/// How many files and directories were created. `created` says of each entry whether
/// the file system accepted it, or with which error number it did not; directories count in
/// any case.
pub open spec fn tally(entries: Seq<Entry>, created: Seq<Result<(), u64>>) -> (int, int)
    decreases entries.len(),
{
    if entries.len() == 0 {
        (0, 0)
    } else {
        let rest = tally(entries.drop_last(), created);
        match entries.last().kind {
            EntryKind::File => if created[entries.len() - 1] is Ok {
                (rest.0 + 1, rest.1)
            } else {
                rest
            },
            EntryKind::Directory => (rest.0, rest.1 + 1),
            _ => rest,
        }
    }
}

/// The name of an entry.
pub open spec fn entry_name(data: Seq<u8>, e: Entry) -> Seq<u8> {
    data.subrange(e.name_start as int, e.name_start + e.name_len)
}

/// The console once an entry has been created, or not.
pub open spec fn with_entry_text(
    out: Seq<u8>,
    data: Seq<u8>,
    e: Entry,
    created: Result<(), u64>,
) -> Seq<u8> {
    let name = entry_name(data, e);
    match e.kind {
        EntryKind::BadName => out + serial::text("[INITRD] ERROR: non-UTF8 name at offset "@)
            + serial::hex_text(e.offset as u64) + serial::line_end(),
        EntryKind::Traversal => out + serial::text("[INITRD] WARN: skipping path with ..: "@) + name
            + serial::line_end(),
        EntryKind::Directory => {
            let asked = out + serial::text("[INITRD] Creating dir: '"@) + name + serial::text(
                "'\n"@,
            );
            match created {
                Ok(_) => asked + serial::text("[INITRD]   -> OK\n"@),
                Err(errno) => asked + serial::text("[INITRD]   -> Err "@) + serial::hex_text(errno)
                    + serial::line_end(),
            }
        },
        EntryKind::File => {
            let asked = out + serial::text("[INITRD] Creating file: '"@) + name + serial::text(
                "'\n"@,
            );
            match created {
                Ok(_) => asked + serial::text("[INITRD]   -> OK\n"@),
                Err(errno) => asked + serial::text("[INITRD] WARN: failed to create '"@) + name
                    + serial::text("': error "@) + serial::hex_text(errno) + serial::line_end(),
            }
        },
    }
}

/// The console once some entries have been created, or not.
pub open spec fn with_entries_text(
    out: Seq<u8>,
    data: Seq<u8>,
    entries: Seq<Entry>,
    created: Seq<Result<(), u64>>,
) -> Seq<u8>
    decreases entries.len(),
{
    if entries.len() == 0 {
        out
    } else {
        with_entry_text(
            with_entries_text(out, data, entries.drop_last(), created),
            data,
            entries.last(),
            created[entries.len() - 1],
        )
    }
}

/// The console once the archive has ended.
pub open spec fn with_end_text(out: Seq<u8>, end: ArchiveEnd) -> Seq<u8> {
    match end {
        ArchiveEnd::TruncatedHeader(offset) => out + serial::text(
            "[INITRD] ERROR: truncated header at offset "@,
        ) + serial::hex_text(offset as u64) + serial::line_end(),
        ArchiveEnd::BadHeader(offset) => out + serial::text(
            "[INITRD] ERROR: bad header at offset "@,
        ) + serial::hex_text(offset as u64) + serial::line_end(),
        _ => out,
    }
}

/// The console once the whole archive has been loaded.
pub open spec fn with_loaded_text(
    out: Seq<u8>,
    data: Seq<u8>,
    entries: Seq<Entry>,
    end: ArchiveEnd,
    created: Seq<Result<(), u64>>,
) -> Seq<u8> {
    with_end_text(with_entries_text(out, data, entries, created), end) + serial::text(
        "[INITRD] Loaded "@,
    ) + serial::hex_text(tally(entries, created).0 as u64) + serial::text(" files, "@)
        + serial::hex_text(tally(entries, created).1 as u64) + serial::text(" dirs\n"@)
}

/// Notes what came of an entry.
fn say_entry(data: &[u8], e: &Entry, created: &Result<(), u64>, out: &mut Vec<u8>)
    requires
        e.name_start + e.name_len <= data@.len(),
    ensures
        final(out)@ == with_entry_text(old(out)@, data@, *e, *created),
{
    assert(e.name_start + e.name_len <= data.len());
    let name: &[u8] = &data[e.name_start..e.name_start + e.name_len];
    match e.kind {
        EntryKind::BadName => {
            serial::write_str(out, "[INITRD] ERROR: non-UTF8 name at offset ");
            serial::write_hex(out, e.offset as u64);
            serial::write_nl(out);
        },
        EntryKind::Traversal => {
            serial::write_str(out, "[INITRD] WARN: skipping path with ..: ");
            bytes::append(out, name);
            serial::write_nl(out);
        },
        EntryKind::Directory => {
            serial::write_str(out, "[INITRD] Creating dir: '");
            bytes::append(out, name);
            serial::write_str(out, "'\n");
            match created {
                Ok(_) => {
                    serial::write_str(out, "[INITRD]   -> OK\n");
                },
                Err(errno) => {
                    serial::write_str(out, "[INITRD]   -> Err ");
                    serial::write_hex(out, *errno);
                    serial::write_nl(out);
                },
            }
        },
        EntryKind::File => {
            serial::write_str(out, "[INITRD] Creating file: '");
            bytes::append(out, name);
            serial::write_str(out, "'\n");
            match created {
                Ok(_) => {
                    serial::write_str(out, "[INITRD]   -> OK\n");
                },
                Err(errno) => {
                    serial::write_str(out, "[INITRD] WARN: failed to create '");
                    bytes::append(out, name);
                    serial::write_str(out, "': error ");
                    serial::write_hex(out, *errno);
                    serial::write_nl(out);
                },
            }
        },
    }
}

/// Notes what came of the entries of an archive, and counts the files and directories that
/// were created.
pub fn report_created(
    initrd_data: &[u8],
    entries: &[Entry],
    end: ArchiveEnd,
    created: &[Result<(), u64>],
    out: &mut Vec<u8>,
) -> (r: (u64, u64))
    requires
        entries@.len() == created@.len(),
        forall|i: int|
            0 <= i < entries@.len() ==> (#[trigger] entries@[i]).name_start + entries@[i].name_len
                <= initrd_data@.len(),
    ensures
        (r.0 as int, r.1 as int) == tally(entries@, created@),
        final(out)@ == with_loaded_text(old(out)@, initrd_data@, entries@, end, created@),
{
    let mut files: u64 = 0;
    let mut dirs: u64 = 0;
    let mut i: usize = 0;
    while i < entries.len()
        invariant
            i <= entries@.len(),
            entries@.len() == created@.len(),
            entries.len() <= u64::MAX,
            forall|k: int|
                0 <= k < entries@.len() ==> (#[trigger] entries@[k]).name_start
                    + entries@[k].name_len <= initrd_data@.len(),
            files <= i,
            dirs <= i,
            (files as int, dirs as int) == tally(entries@.take(i as int), created@),
            out@ == with_entries_text(
                old(out)@,
                initrd_data@,
                entries@.take(i as int),
                created@,
            ),
        decreases entries@.len() - i,
    {
        assert(entries@.take(i + 1).drop_last() =~= entries@.take(i as int));
        assert(entries.len() == entries@.len());
        say_entry(initrd_data, &entries[i], &created[i], out);
        match entries[i].kind {
            EntryKind::File => {
                if created[i].is_ok() {
                    files = files + 1;
                }
            },
            EntryKind::Directory => {
                dirs = dirs + 1;
            },
            _ => {},
        }
        i = i + 1;
    }
    assert(entries@.take(i as int) =~= entries@);
    match end {
        ArchiveEnd::TruncatedHeader(offset) => {
            serial::write_str(out, "[INITRD] ERROR: truncated header at offset ");
            serial::write_hex(out, offset as u64);
            serial::write_nl(out);
        },
        ArchiveEnd::BadHeader(offset) => {
            serial::write_str(out, "[INITRD] ERROR: bad header at offset ");
            serial::write_hex(out, offset as u64);
            serial::write_nl(out);
        },
        _ => {},
    }
    serial::write_str(out, "[INITRD] Loaded ");
    serial::write_hex(out, files);
    serial::write_str(out, " files, ");
    serial::write_hex(out, dirs);
    serial::write_str(out, " dirs\n");
    (files, dirs)
}

/// Nothing is read past the archive, and no path that is created holds "..": this is so
/// of each entry.
pub proof fn law_entries_safe(data: Seq<u8>, at: int, i: int)
    requires
        data.len() + 4 <= usize::MAX,
        0 <= at,
        0 <= i < entries_from(data, at).0.len(),
    ensures
        ({
            let e = entries_from(data, at).0[i];
            &&& e.name_start + e.name_len <= data.len()
            &&& e.data_start + e.data_len <= data.len()
            &&& e.kind == EntryKind::File || e.kind == EntryKind::Directory ==> !has_dot_dot(
                data.subrange(e.name_start as int, e.name_start + e.name_len),
            )
        }),
    decreases data.len() - at,
{
    if at + 110 <= data.len() {
        if is_padding(data, at) {
            law_entries_safe(data, at + 1, i);
        } else if let Some(h) = header_of(data, at) {
            lemma_hex_bound(data, at + 94, 8);
            lemma_hex_bound(data, at + 54, 8);
            assert(vstd::arithmetic::power::pow(16, 8) == 0x1_0000_0000) by {
                reveal_with_fuel(vstd::arithmetic::power::pow, 9);
            }
            let e = entry_of(data, at, h);
            let listed = !(e.kind == EntryKind::Directory && e.name_len == 0);
            if listed && i == 0 {
                let name = name_of(data, at, h);
                let sub = data.subrange(e.name_start as int, e.name_start + e.name_len);
                if has_dot_dot(sub) {
                    let k = choose|k: int|
                        0 <= k < sub.len() - 1 && #[trigger] sub[k] == 0x2E && sub[k + 1] == 0x2E;
                    assert(name[k] == 0x2E && name[k + 1] == 0x2E);
                }
            } else {
                law_entries_safe(
                    data,
                    next_header(at, h),
                    if listed {
                        i - 1
                    } else {
                        i
                    },
                );
            }
        }
    }
}

proof fn lemma_hex_bound(data: Seq<u8>, at: int, n: int)
    requires
        0 <= n,
    ensures
        hex_number(data, at, n) matches Some(v) ==> 0 <= v < vstd::arithmetic::power::pow(
            16,
            n as nat,
        ),
    decreases n,
{
    reveal(vstd::arithmetic::power::pow);
    if n > 0 {
        lemma_hex_bound(data, at, n - 1);
    }
}

} // verus!
