//! Where the parts of a kernel image go, and what a relocation makes of a word of it.
use vstd::prelude::*;

use crate::boot::{
    first_of, header_count, highest, kernel_segments, layout_error, loaded, lowest, readable,
    relocated, relocated_one, relocated_table, section_count, BootError, ConfigTable, KernelLayout,
    KernelSegment,
};
use crate::bytes;
use crate::laws::select::{lemma_selects, picks_of, selects};
use crate::memory;

verus! {

/// Where program header `i` starts: the offset of the table is at byte 32, the size of an
/// entry at byte 54.
pub open spec fn program_header_at(data: Seq<u8>, i: int) -> int {
    bytes::le64(data, 32) + i * bytes::le16(data, 54)
}

/// Whether the program header at byte `at` has the given fields.
pub open spec fn has_segment(data: Seq<u8>, at: int, s: KernelSegment) -> bool {
    &&& bytes::has32(data, at, 1)
    &&& bytes::has64(data, at + 8, s.offset as int)
    &&& bytes::has64(data, at + 16, s.vaddr as int)
    &&& bytes::has64(data, at + 32, s.filesz as int)
    &&& bytes::has64(data, at + 40, s.memsz as int)
}

/// Whether some segments are the program headers with the numbers `picks`, and those are the
/// loadable ones.
pub open spec fn are_loadable(
    data: Seq<u8>,
    n: int,
    segments: Seq<KernelSegment>,
    picks: Seq<int>,
) -> bool {
    &&& selects(picks, n, |i: int| bytes::has32(data, program_header_at(data, i), 1))
    &&& picks.len() == segments.len()
    &&& forall|k: int|
        0 <= k < picks.len() ==> has_segment(
            data,
            program_header_at(data, #[trigger] picks[k]),
            segments[k],
        )
}

/// The segments of a kernel image are its loadable program headers: all of them, each
/// once, in the order of the table.
pub proof fn law_all_kernel_segments(data: Seq<u8>)
    requires
        data.len() >= 64,
        bytes::le16(data, 54) >= 48,
        program_header_at(data, bytes::le16(data, 56) as int) <= data.len(),
    ensures
        exists|picks: Seq<int>|
            #[trigger] are_loadable(
                data,
                bytes::le16(data, 56) as int,
                kernel_segments(data, header_count(data)),
                picks,
            ),
{
    let n = bytes::le16(data, 56) as int;
    let wanted = |i: int| bytes::has32(data, program_header_at(data, i), 1);
    lemma_kernel_segments(data, n, n);
    lemma_selects(n, wanted);
    assert(header_count(data) == n);
    let picks = picks_of(n, wanted);
    assert forall|k: int| 0 <= k < picks.len() implies has_segment(
        data,
        program_header_at(data, #[trigger] picks[k]),
        kernel_segments(data, n)[k],
    ) by {}
    assert(are_loadable(data, n, kernel_segments(data, header_count(data)), picks));
}

proof fn lemma_kernel_segments(data: Seq<u8>, n: int, all: int)
    requires
        n <= all,
        bytes::le16(data, 54) >= 48,
        program_header_at(data, all) <= data.len(),
    ensures
        ({
            let picks = picks_of(
                n,
                |i: int| bytes::has32(data, program_header_at(data, i), 1),
            );
            let segments = kernel_segments(data, n);
            &&& picks.len() == segments.len()
            &&& forall|k: int|
                0 <= k < picks.len() ==> has_segment(
                    data,
                    program_header_at(data, #[trigger] picks[k]),
                    segments[k],
                )
        }),
    decreases n,
{
    if n > 0 {
        lemma_kernel_segments(data, n - 1, all);
        let size = bytes::le16(data, 54) as int;
        let at = program_header_at(data, n - 1);
        assert((n - 1) * size >= 0 && (n - 1) * size + size <= all * size) by (nonlinear_arith)
            requires
                1 <= n <= all,
                0 <= size,
        ;
        bytes::law_read_is_there(data, at);
        bytes::law_little_endian(data, at, 1);
        bytes::law_read_is_there(data, at + 8);
        bytes::law_read_is_there(data, at + 16);
        bytes::law_read_is_there(data, at + 32);
        bytes::law_read_is_there(data, at + 40);
    }
}

/// The range of addresses of a kernel image runs from the start of one of its segments
/// to the end of one, and each of them lies in it.
pub proof fn law_address_range(segments: Seq<KernelSegment>)
    requires
        segments.len() > 0,
    ensures
        forall|k: int|
            0 <= k < segments.len() ==> lowest(segments) <= (#[trigger] segments[k]).vaddr
                && segments[k].vaddr + segments[k].memsz <= highest(segments),
        exists|k: int| 0 <= k < segments.len() && (#[trigger] segments[k]).vaddr == lowest(segments),
        highest(segments) == 0 || exists|k: int|
            0 <= k < segments.len() && (#[trigger] segments[k]).vaddr + segments[k].memsz
                == highest(segments),
    decreases segments.len(),
{
    let rest = segments.drop_last();
    let last = segments.len() - 1;
    assert(segments[last] == segments.last());
    assert(forall|k: int| 0 <= k < rest.len() ==> #[trigger] rest[k] == segments[k]);
    if rest.len() > 0 {
        law_address_range(rest);
        let low = choose|k: int| 0 <= k < rest.len() && (#[trigger] rest[k]).vaddr == lowest(rest);
        assert(segments[low] == rest[low]);
        if highest(rest) != 0 {
            let high = choose|k: int|
                0 <= k < rest.len() && (#[trigger] rest[k]).vaddr + rest[k].memsz == highest(rest);
            assert(segments[high] == rest[high]);
        }
    }
    assert forall|k: int| 0 <= k < segments.len() implies lowest(segments)
        <= (#[trigger] segments[k]).vaddr && segments[k].vaddr + segments[k].memsz <= highest(
        segments,
    ) by {
        if k < last {
            assert(rest[k] == segments[k]);
        }
    }
    assert(segments[last].vaddr == lowest(segments) || lowest(segments) == lowest(rest));
    assert(segments[last].vaddr + segments[last].memsz == highest(segments) || highest(segments)
        == highest(rest));
}

/// A kernel image is refused for the first thing in it that is wrong: the magic number, the
/// class, a table of program headers that does not fit in the file, or no segment below the
/// top of the address space.
pub proof fn law_image_refused(data: Seq<u8>)
    requires
        data.len() >= 64,
    ensures
        ({
            let magic = data[0] == 0x7F && data[1] == 0x45 && data[2] == 0x4C && data[3] == 0x46;
            let count = bytes::le16(data, 56) as int;
            let fit = count == 0 || program_header_at(data, count) <= data.len();
            &&& layout_error(data) == Some(BootError::BadMagic) <==> !magic
            &&& layout_error(data) == Some(BootError::NotElf64) <==> magic && data[4] != 2
            &&& layout_error(data) == Some(BootError::HeaderOutOfBounds) <==> magic && data[4] == 2
                && !fit
            &&& layout_error(data) == Some(BootError::NoSegments) ==> magic && data[4] == 2 && fit
                && forall|k: int|
                0 <= k < kernel_segments(data, count).len() ==> (#[trigger] kernel_segments(
                    data,
                    count,
                )[k]).vaddr == u64::MAX
            &&& kernel_segments(data, count).len() == 0 ==> layout_error(data) is Some
        }),
{
    let count = bytes::le16(data, 56) as int;
    if kernel_segments(data, count).len() > 0 {
        law_address_range(kernel_segments(data, count));
    }
}

/// What no segment fills is zero.
pub proof fn law_gaps_are_zero(
    data: Seq<u8>,
    segments: Seq<KernelSegment>,
    min_vaddr: u64,
    size: nat,
    i: int,
)
    requires
        0 <= i < size,
        forall|k: int|
            0 <= k < segments.len() ==> {
                let s = #[trigger] segments[k];
                &&& s.offset + s.filesz <= data.len()
                &&& min_vaddr <= s.vaddr
                &&& s.vaddr - min_vaddr + s.filesz <= size
                &&& !(s.vaddr <= min_vaddr + i < s.vaddr + s.filesz)
            },
    ensures
        loaded(data, segments, min_vaddr, size, segments.len() as int)[i] == 0,
        loaded(data, segments, min_vaddr, size, segments.len() as int).len() == size,
{
    lemma_gap(data, segments, min_vaddr, size, i, segments.len() as int);
}

proof fn lemma_gap(
    data: Seq<u8>,
    segments: Seq<KernelSegment>,
    min_vaddr: u64,
    size: nat,
    i: int,
    n: int,
)
    requires
        0 <= i < size,
        n <= segments.len(),
        forall|k: int|
            0 <= k < segments.len() ==> {
                let s = #[trigger] segments[k];
                &&& s.offset + s.filesz <= data.len()
                &&& min_vaddr <= s.vaddr
                &&& s.vaddr - min_vaddr + s.filesz <= size
                &&& !(s.vaddr <= min_vaddr + i < s.vaddr + s.filesz)
            },
    ensures
        loaded(data, segments, min_vaddr, size, n)[i] == 0,
        loaded(data, segments, min_vaddr, size, n).len() == size,
    decreases n,
{
    if n > 0 {
        lemma_gap(data, segments, min_vaddr, size, i, n - 1);
        assert(segments[n - 1].vaddr - min_vaddr >= 0);
    }
}

/// The number of the section headers, at byte 60; there are none if the offset of their
/// table, at byte 40, is 0.
pub proof fn law_sections_counted(data: Seq<u8>, n: int)
    requires
        bytes::has16(data, 60, n),
    ensures
        bytes::has64(data, 40, 0) ==> section_count(data) == 0,
        data.len() >= 64 && !bytes::has64(data, 40, 0) ==> section_count(data) == n,
{
    bytes::law_little_endian(data, 60, n);
    bytes::law_little_endian(data, 40, 0);
    bytes::law_read_is_there(data, 40);
}

/// Where section header `s` starts: the offset of the table is at byte 40, the size of an
/// entry at byte 58.
pub open spec fn section_header_at(data: Seq<u8>, s: int) -> int {
    bytes::le64(data, 40) + s * bytes::le16(data, 58)
}

/// Whether section `s` is a relocation table that lies in the file: its type, at byte 4 of
/// its header, is 4, and its entries have a size.
pub open spec fn is_table(data: Seq<u8>, s: int) -> bool {
    let at = section_header_at(data, s);
    &&& at + bytes::le16(data, 58) <= data.len()
    &&& bytes::le32(data, at + 4) == 4
    &&& bytes::le64(data, at + 56) != 0
    &&& bytes::le64(data, at + 24) + bytes::le64(data, at + 32) <= data.len()
}

/// The number of entries of relocation table `s`: the size of the table over that of an
/// entry.
pub open spec fn table_len(data: Seq<u8>, s: int) -> int {
    let at = section_header_at(data, s);
    bytes::le64(data, at + 32) as int / bytes::le64(data, at + 56) as int
}

/// Where entry `e` of relocation table `s` starts.
pub open spec fn relocation_at(data: Seq<u8>, s: int, e: int) -> int {
    let at = section_header_at(data, s);
    bytes::le64(data, at + 24) + e * bytes::le64(data, at + 56)
}

/// Whether the relocation at byte `ent` changes byte `i` of an image of `len` bytes: it is a
/// relative one, and the 8 bytes from its place on lie in the image and hold byte `i`.
pub open spec fn relocates(data: Seq<u8>, ent: int, min_vaddr: u64, len: int, i: int) -> bool {
    let place = (bytes::le64(data, ent) - min_vaddr) % 0x1_0000_0000_0000_0000;
    &&& bytes::le32(data, ent + 8) == 8
    &&& place + 8 <= len
    &&& place <= i < place + 8
}

proof fn lemma_one(
    image: Seq<u8>,
    data: Seq<u8>,
    ent: int,
    base_phys: u64,
    min_vaddr: u64,
    i: int,
)
    requires
        0 <= i < image.len(),
    ensures
        relocated_one(image, data, ent, base_phys, min_vaddr).len() == image.len(),
        !relocates(data, ent, min_vaddr, image.len() as int, i) ==> relocated_one(
            image,
            data,
            ent,
            base_phys,
            min_vaddr,
        )[i] == image[i],
{
}

#[verifier::rlimit(40)]
proof fn lemma_table_keeps(
    image: Seq<u8>,
    data: Seq<u8>,
    table: int,
    entsize: int,
    from: int,
    n: int,
    base_phys: u64,
    min_vaddr: u64,
    i: int,
)
    requires
        0 <= i < image.len(),
        0 <= from <= n,
        forall|f: int|
            from <= f < n ==> !relocates(
                data,
                table + #[trigger] (f * entsize),
                min_vaddr,
                image.len() as int,
                i,
            ),
    ensures
        relocated_table(image, data, table, entsize, n, base_phys, min_vaddr).len() == image.len(),
        relocated_table(image, data, table, entsize, from, base_phys, min_vaddr).len()
            == image.len(),
        relocated_table(image, data, table, entsize, n, base_phys, min_vaddr)[i]
            == relocated_table(image, data, table, entsize, from, base_phys, min_vaddr)[i],
    decreases n,
{
    if n > 0 {
        if from < n {
            lemma_table_keeps(
                image,
                data,
                table,
                entsize,
                from,
                n - 1,
                base_phys,
                min_vaddr,
                i,
            );
            assert(!relocates(
                data,
                table + ((n - 1) * entsize),
                min_vaddr,
                image.len() as int,
                i,
            ));
        } else {
            lemma_table_keeps(
                image,
                data,
                table,
                entsize,
                n - 1,
                n - 1,
                base_phys,
                min_vaddr,
                i,
            );
        }
        lemma_one(
            relocated_table(image, data, table, entsize, n - 1, base_phys, min_vaddr),
            data,
            table + (n - 1) * entsize,
            base_phys,
            min_vaddr,
            i,
        );
    }
}

/// Whether no relocation of section `s` from entry `from` on changes byte `i`.
pub open spec fn section_spares(
    data: Seq<u8>,
    s: int,
    from: int,
    min_vaddr: u64,
    len: int,
    i: int,
) -> bool {
    is_table(data, s) ==> forall|f: int|
        from <= f < table_len(data, s) ==> !relocates(
            data,
            #[trigger] relocation_at(data, s, f),
            min_vaddr,
            len,
            i,
        )
}

#[verifier::rlimit(40)]
proof fn lemma_sections_keep(
    image: Seq<u8>,
    data: Seq<u8>,
    from: int,
    n: int,
    base_phys: u64,
    min_vaddr: u64,
    i: int,
)
    requires
        0 <= i < image.len(),
        0 <= from <= n,
        forall|s: int|
            from <= s < n ==> #[trigger] section_spares(
                data,
                s,
                0,
                min_vaddr,
                image.len() as int,
                i,
            ),
    ensures
        relocated(image, data, n, base_phys, min_vaddr).len() == image.len(),
        relocated(image, data, from, base_phys, min_vaddr).len() == image.len(),
        relocated(image, data, n, base_phys, min_vaddr)[i] == relocated(
            image,
            data,
            from,
            base_phys,
            min_vaddr,
        )[i],
    decreases n,
{
    if n > 0 {
        let before = relocated(image, data, n - 1, base_phys, min_vaddr);
        let at = section_header_at(data, n - 1);
        let table = bytes::le64(data, at + 24) as int;
        let entsize = bytes::le64(data, at + 56) as int;
        let len = table_len(data, n - 1);
        if from < n {
            lemma_sections_keep(image, data, from, n - 1, base_phys, min_vaddr, i);
            assert(section_spares(data, n - 1, 0, min_vaddr, image.len() as int, i));
            if is_table(data, n - 1) {
                assert(len >= 0) by (nonlinear_arith)
                    requires
                        len == bytes::le64(data, at + 32) as int / entsize,
                        entsize > 0,
                ;
                assert forall|f: int| 0 <= f < len implies !relocates(
                    data,
                    table + #[trigger] (f * entsize),
                    min_vaddr,
                    before.len() as int,
                    i,
                ) by {
                    assert(!relocates(
                        data,
                        relocation_at(data, n - 1, f),
                        min_vaddr,
                        image.len() as int,
                        i,
                    ));
                }
                lemma_table_keeps(
                    before,
                    data,
                    table,
                    entsize,
                    0,
                    len,
                    base_phys,
                    min_vaddr,
                    i,
                );
            }
        } else {
            lemma_sections_keep(image, data, n - 1, n - 1, base_phys, min_vaddr, i);
            if is_table(data, n - 1) {
                assert(len >= 0) by (nonlinear_arith)
                    requires
                        len == bytes::le64(data, at + 32) as int / entsize,
                        entsize > 0,
                ;
                lemma_table_keeps(
                    before,
                    data,
                    table,
                    entsize,
                    len,
                    len,
                    base_phys,
                    min_vaddr,
                    i,
                );
            }
        }
    }
}

/// A byte of the image that no relocation asks for stays as it is.
pub proof fn law_unrelocated_bytes_stay(
    image: Seq<u8>,
    data: Seq<u8>,
    n: int,
    base_phys: u64,
    min_vaddr: u64,
    i: int,
)
    requires
        0 <= i < image.len(),
        0 <= n,
        forall|s: int|
            0 <= s < n ==> #[trigger] section_spares(
                data,
                s,
                0,
                min_vaddr,
                image.len() as int,
                i,
            ),
    ensures
        relocated(image, data, n, base_phys, min_vaddr).len() == image.len(),
        relocated(image, data, n, base_phys, min_vaddr)[i] == image[i],
{
    lemma_sections_keep(image, data, 0, n, base_phys, min_vaddr, i);
}

/// A relative relocation makes its word an address in the image as it lies in memory: the
/// word `place` bytes into the image, where its place is counted from the lowest address,
/// becomes the base plus what the addend is above the lowest address. No later relocation
/// may touch the word.
#[verifier::rlimit(40)]
pub proof fn law_word_is_moved(
    image: Seq<u8>,
    data: Seq<u8>,
    n: int,
    base_phys: u64,
    min_vaddr: u64,
    s: int,
    e: int,
    place: int,
    addend: int,
)
    requires
        0 <= s < n,
        is_table(data, s),
        0 <= e < table_len(data, s),
        bytes::has64(data, relocation_at(data, s, e), min_vaddr + place),
        bytes::has32(data, relocation_at(data, s, e) + 8, 8),
        bytes::has64(data, relocation_at(data, s, e) + 16, addend),
        0 <= place,
        place + 8 <= image.len(),
        forall|i: int|
            place <= i < place + 8 ==> #[trigger] section_spares(
                data,
                s,
                e + 1,
                min_vaddr,
                image.len() as int,
                i,
            ),
        forall|i: int, t: int|
            place <= i < place + 8 && s < t < n ==> #[trigger] section_spares(
                data,
                t,
                0,
                min_vaddr,
                image.len() as int,
                i,
            ),
    ensures
        relocated(image, data, n, base_phys, min_vaddr).len() == image.len(),
        bytes::has64(
            relocated(image, data, n, base_phys, min_vaddr),
            place,
            (base_phys + addend - min_vaddr) % 0x1_0000_0000_0000_0000,
        ),
{
    let at = section_header_at(data, s);
    let table = bytes::le64(data, at + 24) as int;
    let entsize = bytes::le64(data, at + 56) as int;
    let len = table_len(data, s);
    let ent = relocation_at(data, s, e);
    let before = relocated(image, data, s, base_phys, min_vaddr);
    let value = (base_phys + addend - min_vaddr) % 0x1_0000_0000_0000_0000;
    lemma_sections_keep(image, data, s, s, base_phys, min_vaddr, place);
    lemma_table_keeps(before, data, table, entsize, e, e, base_phys, min_vaddr, place);
    let prior = relocated_table(before, data, table, entsize, e, base_phys, min_vaddr);
    let done = relocated_table(before, data, table, entsize, e + 1, base_phys, min_vaddr);
    assert(e + 1 - 1 == e);
    assert(done == relocated_one(prior, data, ent, base_phys, min_vaddr));
    lemma_one_written(prior, data, ent, base_phys, min_vaddr, place, addend);
    let end = relocated(image, data, n, base_phys, min_vaddr);
    assert forall|i: int| place <= i < place + 8 implies #[trigger] end[i] == done[i] by {
        assert(section_spares(data, s, e + 1, min_vaddr, image.len() as int, i));
        assert forall|f: int| e + 1 <= f < len implies !relocates(
            data,
            table + #[trigger] (f * entsize),
            min_vaddr,
            before.len() as int,
            i,
        ) by {
            assert(!relocates(
                data,
                relocation_at(data, s, f),
                min_vaddr,
                image.len() as int,
                i,
            ));
        }
        lemma_table_keeps(before, data, table, entsize, e + 1, len, base_phys, min_vaddr, i);
        assert(relocated(image, data, s + 1, base_phys, min_vaddr) == relocated_table(
            before,
            data,
            table,
            entsize,
            len,
            base_phys,
            min_vaddr,
        ));
        assert forall|t: int| s + 1 <= t < n implies #[trigger] section_spares(
            data,
            t,
            0,
            min_vaddr,
            image.len() as int,
            i,
        ) by {}
        lemma_sections_keep(image, data, s + 1, n, base_phys, min_vaddr, i);
    }
    lemma_sections_keep(image, data, n, n, base_phys, min_vaddr, place);
    lemma_same_number(done, end, place, value);
}

proof fn lemma_same_number(a: Seq<u8>, b: Seq<u8>, at: int, v: int)
    requires
        bytes::has64(a, at, v),
        at + 8 <= b.len(),
        forall|i: int| at <= i < at + 8 ==> #[trigger] b[i] == a[i],
    ensures
        bytes::has64(b, at, v),
{
}

#[verifier::rlimit(40)]
proof fn lemma_one_written(
    image: Seq<u8>,
    data: Seq<u8>,
    ent: int,
    base_phys: u64,
    min_vaddr: u64,
    place: int,
    addend: int,
)
    requires
        bytes::has64(data, ent, min_vaddr + place),
        bytes::has32(data, ent + 8, 8),
        bytes::has64(data, ent + 16, addend),
        0 <= place,
        place + 8 <= image.len(),
    ensures
        bytes::has64(
            relocated_one(image, data, ent, base_phys, min_vaddr),
            place,
            (base_phys + addend - min_vaddr) % 0x1_0000_0000_0000_0000,
        ),
{
    lemma_fields(data, ent, min_vaddr + place, addend);
    lemma_written(
        image,
        data,
        ent,
        base_phys,
        min_vaddr,
        place,
        bytes::le64(data, ent),
        bytes::le64(data, ent + 16),
    );
}

proof fn lemma_fields(data: Seq<u8>, ent: int, at: int, addend: int)
    requires
        bytes::has64(data, ent, at),
        bytes::has32(data, ent + 8, 8),
        bytes::has64(data, ent + 16, addend),
    ensures
        bytes::le64(data, ent) == at,
        bytes::le32(data, ent + 8) == 8,
        bytes::le64(data, ent + 16) == addend,
{
    bytes::law_little_endian(data, ent, at);
    bytes::law_little_endian(data, ent + 8, 8);
    bytes::law_little_endian(data, ent + 16, addend);
}

#[verifier::rlimit(40)]
proof fn lemma_written(
    image: Seq<u8>,
    data: Seq<u8>,
    ent: int,
    base_phys: u64,
    min_vaddr: u64,
    place: int,
    at: u64,
    addend: u64,
)
    requires
        at == bytes::le64(data, ent),
        bytes::le32(data, ent + 8) == 8,
        addend == bytes::le64(data, ent + 16),
        at == min_vaddr + place,
        0 <= place,
        place + 8 <= image.len(),
    ensures
        bytes::has64(
            relocated_one(image, data, ent, base_phys, min_vaddr),
            place,
            (base_phys + addend - min_vaddr) % 0x1_0000_0000_0000_0000,
        ),
{
    let value = (base_phys + addend - min_vaddr) % 0x1_0000_0000_0000_0000;
    assert(memory::wrap64(at - min_vaddr) == place);
    assert(memory::wrap64(base_phys + addend - min_vaddr) == value as u64);
    bytes::law_written_number(image, place, value as u64, place);
}

/// The entry that is found for a kind of table is the first of that kind. None is found
/// exactly if there is none.
pub proof fn law_first_entry(entries: Seq<(ConfigTable, u64)>, kind: ConfigTable)
    ensures
        match first_of(entries, kind, entries.len() as int) {
            Some(a) => exists|i: int|
                0 <= i < entries.len() && #[trigger] entries[i] == (kind, a) && forall|j: int|
                    0 <= j < i ==> (#[trigger] entries[j]).0 != kind,
            None => forall|j: int| 0 <= j < entries.len() ==> (#[trigger] entries[j]).0 != kind,
        },
{
    lemma_first_entry(entries, kind, entries.len() as int);
}

proof fn lemma_first_entry(entries: Seq<(ConfigTable, u64)>, kind: ConfigTable, n: int)
    requires
        0 <= n <= entries.len(),
    ensures
        match first_of(entries, kind, n) {
            Some(a) => exists|i: int|
                0 <= i < n && #[trigger] entries[i] == (kind, a) && forall|j: int|
                    0 <= j < i ==> (#[trigger] entries[j]).0 != kind,
            None => forall|j: int| 0 <= j < n ==> (#[trigger] entries[j]).0 != kind,
        },
    decreases n,
{
    if n > 0 {
        lemma_first_entry(entries, kind, n - 1);
        if first_of(entries, kind, n - 1) is None && entries[n - 1].0 == kind {
            assert(entries[n - 1] == (kind, entries[n - 1].1));
        }
    }
}

/// A file that is no ELF file can be looked at, and so can one that holds its whole header, has
/// program headers of the usual size, and segments that end in the address space.
pub proof fn law_image_readable(data: Seq<u8>)
    ensures
        data.len() < 4 ==> readable(data),
        data.len() >= 4 && !(data[0] == 0x7F && data[1] == 0x45 && data[2] == 0x4C && data[3]
            == 0x46) ==> readable(data),
        data.len() >= 64 && bytes::le16(data, 54) >= 48 && ({
            let segments = kernel_segments(data, bytes::le16(data, 56) as int);
            &&& forall|k: int|
                0 <= k < segments.len() ==> (#[trigger] segments[k]).vaddr + segments[k].memsz
                    <= u64::MAX
            &&& highest(segments) - lowest(segments) + 4095 <= u64::MAX
        }) ==> readable(data),
{
}

/// An image without a section table can be loaded if all its segments lie in the file and in
/// the block of memory, and the block ends in the address space.
pub proof fn law_image_loadable(layout: KernelLayout, data: Seq<u8>, base_phys: u64)
    requires
        data.len() >= 64,
        bytes::has64(data, 40, 0),
        layout.total_pages * 4096 <= usize::MAX,
        base_phys + (layout.max_vaddr - layout.min_vaddr) <= u64::MAX,
    ensures
        layout.fits(data, base_phys) <==> forall|k: int|
            0 <= k < layout.segments@.len() ==> {
                let s = #[trigger] layout.segments@[k];
                &&& s.offset + s.filesz <= data.len()
                &&& layout.min_vaddr <= s.vaddr
                &&& s.vaddr - layout.min_vaddr + s.filesz <= layout.total_pages * 4096
            },
{
    bytes::law_little_endian(data, 40, 0);
}

} // verus!
