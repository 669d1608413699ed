//! Little-endian integers inside byte sequences.
use vstd::prelude::*;

verus! {

/// The 16-bit little-endian number at `i`.
pub open spec fn le16(s: Seq<u8>, i: int) -> u16 {
    (s[i] + 0x100 * s[i + 1]) as u16
}

/// The 32-bit little-endian number at `i`.
pub open spec fn le32(s: Seq<u8>, i: int) -> u32 {
    (s[i] + 0x100 * s[i + 1] + 0x1_0000 * s[i + 2] + 0x100_0000 * s[i + 3]) as u32
}

/// The 64-bit little-endian number at `i`.
pub open spec fn le64(s: Seq<u8>, i: int) -> u64 {
    (le32(s, i) + 0x1_0000_0000 * le32(s, i + 4)) as u64
}

/// The `k`-th byte, counted from the least significant one, of a 32-bit number.
pub open spec fn byte_of(value: u32, k: int) -> u8 {
    if k == 0 {
        (value % 0x100) as u8
    } else if k == 1 {
        (value / 0x100 % 0x100) as u8
    } else if k == 2 {
        (value / 0x1_0000 % 0x100) as u8
    } else {
        (value / 0x100_0000) as u8
    }
}

/// The four bytes of a 32-bit number, low byte first.
pub open spec fn le32_bytes(value: u32) -> Seq<u8> {
    seq![byte_of(value, 0), byte_of(value, 1), byte_of(value, 2), byte_of(value, 3)]
}

/// The eight bytes of a 64-bit number, low byte first.
pub open spec fn le64_bytes(value: u64) -> Seq<u8> {
    le32_bytes((value % 0x1_0000_0000) as u32) + le32_bytes((value / 0x1_0000_0000) as u32)
}

/// `s` with the bytes from `at` on replaced by `patch`.
pub open spec fn overlay(s: Seq<u8>, at: int, patch: Seq<u8>) -> Seq<u8> {
    Seq::new(
        s.len(),
        |i: int|
            if at <= i < at + patch.len() {
                patch[i - at]
            } else {
                s[i]
            },
    )
}

/// Reading a 32-bit number gives back what was written.
pub proof fn lemma_le32_round_trip(value: u32)
    ensures
        le32(le32_bytes(value), 0) == value,
{
}

/// The number at `i` depends on the bytes there alone.
pub proof fn lemma_le64_same(a: Seq<u8>, b: Seq<u8>, i: int)
    requires
        forall|k: int| i <= k < i + 8 ==> #[trigger] a[k] == b[k],
    ensures
        le64(a, i) == le64(b, i),
        le32(a, i) == le32(b, i),
{
}

/// Reading a 64-bit number gives back what was written.
pub proof fn lemma_le64_overlay(s: Seq<u8>, at: int, value: u64)
    requires
        0 <= at,
        at + 8 <= s.len(),
    ensures
        le64(overlay(s, at, le64_bytes(value)), at) == value,
{
    let o = overlay(s, at, le64_bytes(value));
    let lo = (value % 0x1_0000_0000) as u32;
    let hi = (value / 0x1_0000_0000) as u32;
    lemma_le32_round_trip(lo);
    lemma_le32_round_trip(hi);
    assert(le32(o, at) == le32(le32_bytes(lo), 0));
    assert(le32(o, at + 4) == le32(le32_bytes(hi), 0));
}

pub fn read_u16(data: &[u8], offset: usize) -> (r: u16)
    requires
        offset + 2 <= data@.len(),
    ensures
        r == le16(data@, offset as int),
{
    data[offset] as u16 + 0x100 * data[offset + 1] as u16
}

pub fn read_u32(data: &[u8], offset: usize) -> (r: u32)
    requires
        offset + 4 <= data@.len(),
    ensures
        r == le32(data@, offset as int),
{
    data[offset] as u32 + 0x100 * data[offset + 1] as u32 + 0x1_0000 * data[offset + 2] as u32
        + 0x100_0000 * data[offset + 3] as u32
}

pub fn read_u64(data: &[u8], offset: usize) -> (r: u64)
    requires
        offset + 8 <= data@.len(),
    ensures
        r == le64(data@, offset as int),
{
    assert(offset + 8 <= data.len());
    read_u32(data, offset) as u64 + 0x1_0000_0000 * read_u32(data, offset + 4) as u64
}

/// `core::str::from_utf8` accepts exactly the byte sequences that are valid UTF-8, and
/// gives back the text that they encode.
#[verifier::external_body]
pub(crate) fn utf8_text(raw: &[u8]) -> (r: Option<&str>)
    ensures
        match r {
            Some(s) => vstd::utf8::valid_utf8(raw@) && vstd::utf8::encode_utf8(s@) == raw@,
            None => !vstd::utf8::valid_utf8(raw@),
        },
{
    core::str::from_utf8(raw).ok()
}

/// The product of two 16-bit numbers.
pub fn product(a: u16, b: u16) -> (r: u64)
    ensures
        r == a * b,
{
    assert(0 <= a * b <= 0xFFFF * 0xFFFF) by (nonlinear_arith)
        requires
            0 <= a <= 0xFFFF,
            0 <= b <= 0xFFFF,
    ;
    a as u64 * b as u64
}

/// Writes a 64-bit number.
pub fn write_u64(data: &mut Vec<u8>, offset: usize, value: u64)
    requires
        offset + 8 <= old(data)@.len(),
    ensures
        final(data)@ == overlay(old(data)@, offset as int, le64_bytes(value)),
{
    let len: usize = data.len();
    let lo: u64 = value % 0x1_0000_0000;
    let hi: u64 = value / 0x1_0000_0000;
    data.set(offset, (lo % 0x100) as u8);
    data.set(offset + 1, (lo / 0x100 % 0x100) as u8);
    data.set(offset + 2, (lo / 0x1_0000 % 0x100) as u8);
    data.set(offset + 3, (lo / 0x100_0000) as u8);
    data.set(offset + 4, (hi % 0x100) as u8);
    data.set(offset + 5, (hi / 0x100 % 0x100) as u8);
    data.set(offset + 6, (hi / 0x1_0000 % 0x100) as u8);
    data.set(offset + 7, (hi / 0x100_0000) as u8);
    assert(data@ =~= overlay(old(data)@, offset as int, le64_bytes(value)));
}

/// Copies `src` over the bytes of `dst` that start at `at`.
pub fn copy_at(dst: &mut [u8], at: usize, src: &[u8])
    requires
        at + src@.len() <= old(dst)@.len(),
    ensures
        final(dst)@ == overlay(old(dst)@, at as int, src@),
{
    let ghost before = dst@;
    let mut i: usize = 0;
    while i < src.len()
        invariant
            i <= src@.len(),
            at + src@.len() <= before.len(),
            dst@.len() == before.len(),
            dst@ == overlay(before, at as int, src@.take(i as int)),
        decreases src@.len() - i,
    {
        assert(at + i < dst.len());
        dst[at + i] = src[i];
        i = i + 1;
    }
    assert(src@.take(i as int) =~= src@);
}

/// Copies the `len` bytes of `src` from `from` over the bytes of `dst` that start at `at`.
pub fn copy_range(dst: &mut [u8], at: usize, src: &[u8], from: usize, len: usize)
    requires
        at + len <= old(dst)@.len(),
        from + len <= src@.len(),
    ensures
        final(dst)@ == overlay(old(dst)@, at as int, src@.subrange(from as int, from + len)),
{
    assert(from + len <= src.len());
    copy_at(dst, at, &src[from..from + len]);
}

/// Appends the bytes of `src`.
pub fn append(out: &mut Vec<u8>, src: &[u8])
    ensures
        final(out)@ == old(out)@ + src@,
{
    let ghost before = out@;
    let mut i: usize = 0;
    while i < src.len()
        invariant
            i <= src@.len(),
            out@ == before + src@.take(i as int),
        decreases src@.len() - i,
    {
        out.push(src[i]);
        i = i + 1;
        assert(out@ =~= before + src@.take(i as int));
    }
    assert(src@.take(i as int) =~= src@);
}

/// Whether the 16-bit number `v` stands at `at`, low byte first.
pub open spec fn has16(s: Seq<u8>, at: int, v: int) -> bool {
    &&& 0 <= at
    &&& at + 2 <= s.len()
    &&& 0 <= v < 0x1_0000
    &&& s[at] == v % 256
    &&& s[at + 1] == v / 256
}

/// Whether the 32-bit number `v` stands at `at`, low byte first.
pub open spec fn has32(s: Seq<u8>, at: int, v: int) -> bool {
    &&& 0 <= at
    &&& at + 4 <= s.len()
    &&& 0 <= v < 0x1_0000_0000
    &&& s[at] == v % 256
    &&& s[at + 1] == v / 256 % 256
    &&& s[at + 2] == v / 65536 % 256
    &&& s[at + 3] == v / 16777216
}

/// Whether the 64-bit number `v` stands at `at`, low byte first.
pub open spec fn has64(s: Seq<u8>, at: int, v: int) -> bool {
    &&& 0 <= v < 0x1_0000_0000_0000_0000
    &&& has32(s, at, v % 0x1_0000_0000)
    &&& has32(s, at + 4, v / 0x1_0000_0000)
}

/// A number that stands in a sequence, low byte first, is what is read there.
pub proof fn law_little_endian(s: Seq<u8>, at: int, v: int)
    ensures
        has16(s, at, v) ==> le16(s, at) == v,
        has32(s, at, v) ==> le32(s, at) == v,
        has64(s, at, v) ==> le64(s, at) == v,
{
    if has64(s, at, v) {
        assert(le32(s, at) == v % 0x1_0000_0000);
        assert(le32(s, at + 4) == v / 0x1_0000_0000);
    }
}

/// What is read stands there: no byte of it is left out.
pub proof fn law_read_is_there(s: Seq<u8>, at: int)
    requires
        0 <= at,
    ensures
        at + 2 <= s.len() ==> has16(s, at, le16(s, at) as int),
        at + 4 <= s.len() ==> has32(s, at, le32(s, at) as int),
        at + 8 <= s.len() ==> has64(s, at, le64(s, at) as int),
{
    if at + 8 <= s.len() {
        let v = le64(s, at) as int;
        assert(v % 0x1_0000_0000 == le32(s, at));
        assert(v / 0x1_0000_0000 == le32(s, at + 4));
    }
}

/// A number that is written stands where it was written, and no byte besides has changed.
pub proof fn law_written_number(s: Seq<u8>, at: int, v: u64, other: int)
    requires
        0 <= at,
        at + 8 <= s.len(),
    ensures
        has64(overlay(s, at, le64_bytes(v)), at, v as int),
        overlay(s, at, le64_bytes(v)).len() == s.len(),
        0 <= other < s.len() && !(at <= other < at + 8) ==> overlay(s, at, le64_bytes(v))[other]
            == s[other],
{
    let o = overlay(s, at, le64_bytes(v));
    assert forall|k: int| 0 <= k < 8 implies #[trigger] o[at + k] == le64_bytes(v)[k] by {}
    assert(o[at + 0] == le64_bytes(v)[0] && o[at + 1] == le64_bytes(v)[1] && o[at + 2]
        == le64_bytes(v)[2] && o[at + 3] == le64_bytes(v)[3]);
    assert(o[at + 4] == le64_bytes(v)[4] && o[at + 5] == le64_bytes(v)[5] && o[at + 6]
        == le64_bytes(v)[6] && o[at + 7] == le64_bytes(v)[7]);
}

/// The bytes of a 32-bit number, low byte first.
pub proof fn law_number_bytes(v: u32)
    ensures
        has32(le32_bytes(v), 0, v as int),
        le32_bytes(v).len() == 4,
{
}

/// A patch stands where it was put, and every other byte is as it was.
pub proof fn law_patch_in_place(s: Seq<u8>, at: int, patch: Seq<u8>, i: int)
    requires
        0 <= at,
        at + patch.len() <= s.len(),
    ensures
        overlay(s, at, patch).len() == s.len(),
        overlay(s, at, patch).subrange(at, at + patch.len()) == patch,
        0 <= i < s.len() && (i < at || i >= at + patch.len()) ==> overlay(s, at, patch)[i] == s[i],
{
    assert(overlay(s, at, patch).subrange(at, at + patch.len()) =~= patch);
}

} // verus!
