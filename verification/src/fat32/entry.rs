//! Directory entries and 8.3 names.
use vstd::prelude::*;

use crate::bytes;
use crate::vfs::VfsError;

verus! {

/// `String::push` appends one character.
pub assume_specification[ String::push ](s: &mut String, ch: char)
    ensures
        final(s)@ == old(s)@.push(ch),
;

/// A parsed FAT directory entry.
pub struct FatDirEntry {
    /// "filename.ext", in lower case unless it is a long name.
    pub name: String,
    pub attributes: u8,
    pub first_cluster: u32,
    pub size: u32,
    pub is_lfn: bool,
}

/// What a directory entry says.
pub struct EntryView {
    pub name: Seq<char>,
    pub attributes: u8,
    pub first_cluster: u32,
    pub size: u32,
    pub is_lfn: bool,
}

impl View for FatDirEntry {
    type V = EntryView;

    open spec fn view(&self) -> EntryView {
        EntryView {
            name: self.name@,
            attributes: self.attributes,
            first_cluster: self.first_cluster,
            size: self.size,
            is_lfn: self.is_lfn,
        }
    }
}

pub open spec fn lower(b: u8) -> u8 {
    if 0x41 <= b <= 0x5A {
        (b + 32) as u8
    } else {
        b
    }
}

pub open spec fn upper(b: u8) -> u8 {
    if 0x61 <= b <= 0x7A {
        (b - 32) as u8
    } else {
        b
    }
}

/// How many bytes of a padded name field stand before the first blank or zero.
pub open spec fn text_len(buf: Seq<u8>, from: int, to: int) -> nat
    decreases to - from,
{
    if from >= to || buf[from] == 0x20 || buf[from] == 0 {
        0
    } else {
        1 + text_len(buf, from + 1, to)
    }
}

/// The text of a padded name field, in lower case.
pub open spec fn field_text(buf: Seq<u8>, from: int, to: int) -> Seq<char> {
    Seq::new(text_len(buf, from, to), |i: int| lower(buf[from + i]) as char)
}

/// "name.ext", or the bare name where there is no extension.
pub open spec fn dotted_name(buf: Seq<u8>) -> Seq<char> {
    if text_len(buf, 8, 11) == 0 {
        field_text(buf, 0, 8)
    } else {
        field_text(buf, 0, 8).push('.') + field_text(buf, 8, 11)
    }
}

/// The cluster number whose halves stand at 20 and 26.
pub open spec fn entry_cluster(buf: Seq<u8>) -> u32 {
    (0x1_0000 * bytes::le16(buf, 20) + bytes::le16(buf, 26)) as u32
}

/// What the 32 bytes of a directory slot say; nothing if the slot is free or holds a
/// volume label.
pub open spec fn entry_of(buf: Seq<u8>) -> Option<EntryView> {
    if buf.len() < 32 || buf[0] == 0xE5 || buf[0] == 0 {
        None
    } else if buf[11] == 0x0F {
        Some(
            EntryView {
                name: Seq::empty(),
                attributes: 0x0F,
                first_cluster: 0,
                size: 0,
                is_lfn: true,
            },
        )
    } else if buf[11] & 0x08 != 0 {
        None
    } else {
        Some(
            EntryView {
                name: dotted_name(buf),
                attributes: buf[11],
                first_cluster: entry_cluster(buf),
                size: bytes::le32(buf, 28),
                is_lfn: false,
            },
        )
    }
}

/// The position of the first dot at or after `from`, or the length.
pub open spec fn dot_from(name: Seq<u8>, from: int) -> int
    decreases name.len() - from,
{
    if from >= name.len() || name[from] == 0x2E {
        from
    } else {
        dot_from(name, from + 1)
    }
}

pub proof fn lemma_dot_from(name: Seq<u8>, from: int)
    requires
        0 <= from <= name.len(),
    ensures
        from <= dot_from(name, from) <= name.len(),
        dot_from(name, from) < name.len() ==> name[dot_from(name, from)] == 0x2E,
        forall|i: int| from <= i < dot_from(name, from) ==> name[i] != 0x2E,
    decreases name.len() - from,
{
    if from < name.len() && name[from] != 0x2E {
        lemma_dot_from(name, from + 1);
    }
}

/// The padded upper-case 8.3 form of a name: one to eight bytes, then at most one dot
/// with at most three bytes behind it.
pub open spec fn short_name(name: Seq<u8>) -> Option<Seq<u8>> {
    let dot = dot_from(name, 0);
    let ext = if dot < name.len() {
        name.len() - dot - 1
    } else {
        0
    };
    if dot < name.len() && dot_from(name, dot + 1) < name.len() {
        None
    } else if dot == 0 || dot > 8 || ext > 3 {
        None
    } else {
        Some(
            Seq::new(
                11,
                |i: int|
                    if i < dot {
                        upper(name[i])
                    } else if 8 <= i < 8 + ext {
                        upper(name[dot + 1 + i - 8])
                    } else {
                        0x20u8
                    },
            ),
        )
    }
}

/// The 32 bytes of a directory entry.
pub open spec fn entry_bytes(
    name_83: Seq<u8>,
    attributes: u8,
    first_cluster: u32,
    size: u32,
) -> Seq<u8> {
    Seq::new(
        32,
        |i: int|
            if i < 11 {
                name_83[i]
            } else if i == 11 {
                attributes
            } else if i == 20 {
                bytes::byte_of(first_cluster, 2)
            } else if i == 21 {
                bytes::byte_of(first_cluster, 3)
            } else if i == 26 {
                bytes::byte_of(first_cluster, 0)
            } else if i == 27 {
                bytes::byte_of(first_cluster, 1)
            } else if i >= 28 {
                bytes::byte_of(size, i - 28)
            } else {
                0u8
            },
    )
}

fn push_field(out: &mut String, buf: &[u8], from: usize, to: usize)
    requires
        from <= to <= buf@.len(),
    ensures
        final(out)@ == old(out)@ + field_text(buf@, from as int, to as int),
{
    let ghost before = out@;
    let mut i: usize = from;
    assert(Seq::new(0, |k: int| lower(buf@[from + k]) as char) =~= Seq::empty());
    while i < to && buf[i] != 0x20 && buf[i] != 0x00
        invariant
            from <= i <= to <= buf@.len(),
            text_len(buf@, from as int, to as int) == i - from + text_len(
                buf@,
                i as int,
                to as int,
            ),
            out@ == before + Seq::new(
                (i - from) as nat,
                |k: int| lower(buf@[from + k]) as char,
            ),
        decreases to - i,
    {
        let b: u8 = buf[i];
        let c: u8 = if b >= 0x41 && b <= 0x5A {
            b + 32
        } else {
            b
        };
        out.push(c as char);
        i = i + 1;
    }
    assert(out@ =~= before + field_text(buf@, from as int, to as int));
}

impl FatDirEntry {
    /// Parse a 32-byte directory entry.
    pub fn parse(buf: &[u8]) -> (r: Option<FatDirEntry>)
        ensures
            match r {
                Some(e) => entry_of(buf@) == Some(e@),
                None => entry_of(buf@) is None,
            },
    {
        if buf.len() < 32 {
            return None;
        }
        if buf[0] == 0xE5 || buf[0] == 0x00 {
            return None;
        }
        let attr: u8 = buf[11];
        if attr == 0x0F {
            return Some(
                FatDirEntry {
                    name: String::new(),
                    attributes: attr,
                    first_cluster: 0,
                    size: 0,
                    is_lfn: true,
                },
            );
        }
        if attr & 0x08 != 0 {
            return None;
        }
        let mut name = String::new();
        push_field(&mut name, buf, 0, 8);
        if buf[8] != 0x20 && buf[8] != 0x00 {
            name.push('.');
            push_field(&mut name, buf, 8, 11);
        }
        assert(name@ =~= dotted_name(buf@));
        let cluster_high: u32 = bytes::read_u16(buf, 20) as u32;
        let cluster_low: u32 = bytes::read_u16(buf, 26) as u32;
        Some(
            FatDirEntry {
                name,
                attributes: attr,
                first_cluster: 0x1_0000 * cluster_high + cluster_low,
                size: bytes::read_u32(buf, 28),
                is_lfn: false,
            },
        )
    }

    pub fn is_dir(&self) -> (r: bool)
        ensures
            r == (self.attributes & 0x10 != 0),
    {
        self.attributes & 0x10 != 0
    }

    /// Convert a filename "name.ext" to 8.3 format (11 bytes, padded).
    pub fn name_to_83(name: &str) -> (r: Result<[u8; 11], VfsError>)
        ensures
            match r {
                Ok(short) => short_name(vstd::utf8::encode_utf8(name@)) == Some(short@),
                Err(e) => short_name(vstd::utf8::encode_utf8(name@)) is None && e == VfsError::BadPath,
            },
    {
        let text: &[u8] = name.as_bytes();
        proof {
            lemma_dot_from(text@, 0);
        }
        let dot: usize = find_dot(text, 0);
        let mut ext_len: usize = 0;
        if dot < text.len() {
            if find_dot(text, dot + 1) < text.len() {
                return Err(VfsError::BadPath);
            }
            ext_len = text.len() - dot - 1;
        }
        if dot == 0 || dot > 8 || ext_len > 3 {
            return Err(VfsError::BadPath);
        }
        let mut result: [u8; 11] = [0x20u8; 11];
        let mut i: usize = 0;
        while i < dot
            invariant
                i <= dot <= 8,
                dot <= text@.len(),
                forall|k: int| 0 <= k < i ==> result@[k] == upper(text@[k]),
                forall|k: int| i <= k < 11 ==> result@[k] == 0x20,
            decreases dot - i,
        {
            let b: u8 = text[i];
            result[i] = if b >= 0x61 && b <= 0x7A {
                b - 32
            } else {
                b
            };
            i = i + 1;
        }
        let mut j: usize = 0;
        while j < ext_len
            invariant
                dot <= 8,
                j <= ext_len <= 3,
                ext_len > 0 ==> dot + 1 + ext_len == text@.len(),
                forall|k: int| 0 <= k < dot ==> result@[k] == upper(text@[k]),
                forall|k: int|
                    8 <= k < 8 + j ==> #[trigger] result@[k] == upper(text@[dot + 1 + k - 8]),
                forall|k: int| dot <= k < 8 ==> result@[k] == 0x20,
                forall|k: int| 8 + j <= k < 11 ==> result@[k] == 0x20,
            decreases ext_len - j,
        {
            assert(text@.len() == text.len());
            let b: u8 = text[dot + 1 + j];
            result[8 + j] = if b >= 0x61 && b <= 0x7A {
                b - 32
            } else {
                b
            };
            j = j + 1;
        }
        proof {
            let want = short_name(text@).unwrap();
            assert(result@ =~= want);
        }
        Ok(result)
    }

    /// The 8.3 form of this entry's name.
    pub fn to_bytes(&self) -> (r: Result<[u8; 11], VfsError>)
        ensures
            match r {
                Ok(short) => short_name(vstd::utf8::encode_utf8(self.name@)) == Some(short@),
                Err(e) => short_name(vstd::utf8::encode_utf8(self.name@)) is None && e == VfsError::BadPath,
            },
    {
        Self::name_to_83(self.name.as_str())
    }
}

fn find_dot(text: &[u8], from: usize) -> (r: usize)
    requires
        from <= text@.len(),
    ensures
        r == dot_from(text@, from as int),
        from <= r <= text@.len(),
{
    let mut i: usize = from;
    while i < text.len() && text[i] != 0x2E
        invariant
            from <= i <= text@.len(),
            dot_from(text@, from as int) == dot_from(text@, i as int),
        decreases text@.len() - i,
    {
        i = i + 1;
    }
    i
}

} // verus!
