//! What an executable file says, byte by byte, and what of it is loaded.
use vstd::prelude::*;

use crate::bytes;
use crate::elf::{
    ehdr_of, executable_of, first_error, in_segments, max_end, page_count, page_load, phdr_error,
    phdr_of, segment_flags, segments_of, total_memory, Elf64Ehdr, Elf64Phdr, ElfError,
};
use crate::laws::select::{lemma_selects, picks_of, selects};

verus! {

/// Whether the file header is that of a 64-bit little-endian executable with the given
/// fields.
pub open spec fn has_header(data: Seq<u8>, h: Elf64Ehdr) -> bool {
    &&& data.len() >= 64
    &&& data[0] == 0x7F
    &&& data[1] == 0x45
    &&& data[2] == 0x4C
    &&& data[3] == 0x46
    &&& data[4] == 2
    &&& data[5] == 1
    &&& h.e_type == 2 || h.e_type == 3
    &&& h.e_phnum > 0
    &&& bytes::has16(data, 16, h.e_type as int)
    &&& bytes::has64(data, 24, h.e_entry as int)
    &&& bytes::has64(data, 32, h.e_phoff as int)
    &&& bytes::has16(data, 54, h.e_phentsize as int)
    &&& bytes::has16(data, 56, h.e_phnum as int)
}

/// Whether a program header with the given fields starts at byte `at`.
pub open spec fn has_program_header(data: Seq<u8>, at: int, p: Elf64Phdr) -> bool {
    &&& bytes::has32(data, at, p.p_type as int)
    &&& bytes::has32(data, at + 4, p.p_flags as int)
    &&& bytes::has64(data, at + 8, p.p_offset as int)
    &&& bytes::has64(data, at + 16, p.p_vaddr as int)
    &&& bytes::has64(data, at + 24, p.p_paddr as int)
    &&& bytes::has64(data, at + 32, p.p_filesz as int)
    &&& bytes::has64(data, at + 40, p.p_memsz as int)
    &&& bytes::has64(data, at + 48, p.p_align as int)
}

/// A file with the header of an executable is read as what its header says.
#[verifier::rlimit(40)]
pub proof fn law_header_read(data: Seq<u8>, h: Elf64Ehdr)
    ensures
        has_header(data, h) <==> ehdr_of(data) == Ok::<Elf64Ehdr, ElfError>(h),
{
    if has_header(data, h) {
        bytes::law_little_endian(data, 16, h.e_type as int);
        bytes::law_little_endian(data, 24, h.e_entry as int);
        bytes::law_little_endian(data, 32, h.e_phoff as int);
        bytes::law_little_endian(data, 54, h.e_phentsize as int);
        bytes::law_little_endian(data, 56, h.e_phnum as int);
    }
    if ehdr_of(data) == Ok::<Elf64Ehdr, ElfError>(h) {
        bytes::law_read_is_there(data, 16);
        bytes::law_read_is_there(data, 24);
        bytes::law_read_is_there(data, 32);
        bytes::law_read_is_there(data, 54);
        bytes::law_read_is_there(data, 56);
    }
}

/// A file that is refused for its header is refused for the first thing in it that is wrong:
/// the magic number, the class, the byte order, the type, the number of program headers.
pub proof fn law_header_refused(data: Seq<u8>)
    ensures
        ({
            let magic = data.len() >= 64 && data.take(4) == seq![0x7Fu8, 0x45, 0x4C, 0x46];
            &&& ehdr_of(data) == Err::<Elf64Ehdr, ElfError>(ElfError::BadMagic) <==> !magic
            &&& ehdr_of(data) == Err::<Elf64Ehdr, ElfError>(ElfError::NotElf64) <==> magic
                && data[4] != 2
            &&& ehdr_of(data) == Err::<Elf64Ehdr, ElfError>(ElfError::NotLittleEndian) <==> magic
                && data[4] == 2 && data[5] != 1
            &&& ehdr_of(data) == Err::<Elf64Ehdr, ElfError>(ElfError::NotExecutable) <==> magic
                && data[4] == 2 && data[5] == 1 && !bytes::has16(data, 16, 2) && !bytes::has16(
                data,
                16,
                3,
            )
            &&& ehdr_of(data) == Err::<Elf64Ehdr, ElfError>(ElfError::NoProgramHeaders) ==> magic
                && bytes::has16(data, 56, 0)
        }),
{
    if data.len() >= 64 {
        let four = seq![0x7Fu8, 0x45, 0x4C, 0x46];
        assert(data.take(4)[0] == data[0] && data.take(4)[1] == data[1] && data.take(4)[2]
            == data[2] && data.take(4)[3] == data[3]);
        assert(four[0] == 0x7F && four[1] == 0x45 && four[2] == 0x4C && four[3] == 0x46);
        if data[0] == 0x7F && data[1] == 0x45 && data[2] == 0x4C && data[3] == 0x46 {
            assert(data.take(4) =~= four);
        }
        bytes::law_read_is_there(data, 16);
        bytes::law_read_is_there(data, 56);
        bytes::law_little_endian(data, 16, 2);
        bytes::law_little_endian(data, 16, 3);
        bytes::law_little_endian(data, 56, 0);
    }
}

/// Program header `i` is what stands `i` header sizes behind the start of the table, if the
/// file holds all 56 bytes of it.
#[verifier::rlimit(40)]
pub proof fn law_program_header_read(data: Seq<u8>, h: Elf64Ehdr, i: int, p: Elf64Phdr)
    requires
        0 <= i,
    ensures
        phdr_of(data, h, i) == Some(p) <==> has_program_header(
            data,
            h.e_phoff + i * h.e_phentsize,
            p,
        ),
{
    let at = h.e_phoff + i * h.e_phentsize;
    assert(i * h.e_phentsize >= 0) by (nonlinear_arith)
        requires
            0 <= i,
            0 <= h.e_phentsize,
    ;
    if has_program_header(data, at, p) {
        bytes::law_little_endian(data, at, p.p_type as int);
        bytes::law_little_endian(data, at + 4, p.p_flags as int);
        bytes::law_little_endian(data, at + 8, p.p_offset as int);
        bytes::law_little_endian(data, at + 16, p.p_vaddr as int);
        bytes::law_little_endian(data, at + 24, p.p_paddr as int);
        bytes::law_little_endian(data, at + 32, p.p_filesz as int);
        bytes::law_little_endian(data, at + 40, p.p_memsz as int);
        bytes::law_little_endian(data, at + 48, p.p_align as int);
        assert(phdr_of(data, h, i) == Some(p));
    }
    if phdr_of(data, h, i) == Some(p) {
        bytes::law_read_is_there(data, at);
        bytes::law_read_is_there(data, at + 4);
        bytes::law_read_is_there(data, at + 8);
        bytes::law_read_is_there(data, at + 16);
        bytes::law_read_is_there(data, at + 24);
        bytes::law_read_is_there(data, at + 32);
        bytes::law_read_is_there(data, at + 40);
        bytes::law_read_is_there(data, at + 48);
    }
}

/// Whether program header `i` is there and asks to be loaded.
pub open spec fn asks_to_be_loaded(data: Seq<u8>, h: Elf64Ehdr, i: int) -> bool {
    let at = h.e_phoff + i * h.e_phentsize;
    at + 56 <= data.len() && bytes::has32(data, at, 1)
}

/// Whether some segments are the program headers with the numbers `picks`, and those are the
/// headers that ask to be loaded.
pub open spec fn are_loadable(
    data: Seq<u8>,
    h: Elf64Ehdr,
    segments: Seq<Elf64Phdr>,
    picks: Seq<int>,
) -> bool {
    &&& selects(picks, h.e_phnum as int, |i: int| asks_to_be_loaded(data, h, i))
    &&& picks.len() == segments.len()
    &&& forall|k: int|
        0 <= k < picks.len() ==> has_program_header(
            data,
            h.e_phoff + #[trigger] picks[k] * h.e_phentsize,
            segments[k],
        )
}

/// The segments of an executable that is accepted are its program headers that ask to be
/// loaded: all of them, each once, in the order of the table. Each lies in the file and ends
/// in the lower half of the address space, and one of them holds the entry point.
#[verifier::rlimit(40)]
pub proof fn law_all_segments_loaded(data: Seq<u8>, h: Elf64Ehdr, segments: Seq<Elf64Phdr>)
    requires
        executable_of(data) == Ok::<(Elf64Ehdr, Seq<Elf64Phdr>), ElfError>((h, segments)),
    ensures
        exists|picks: Seq<int>| #[trigger] are_loadable(data, h, segments, picks),
        forall|k: int|
            0 <= k < segments.len() ==> {
                let p = #[trigger] segments[k];
                &&& p.p_offset + p.p_filesz <= data.len()
                &&& p.p_vaddr + p.p_memsz <= 0x8000_0000_0000
            },
        exists|k: int|
            0 <= k < segments.len() && {
                let p = #[trigger] segments[k];
                p.p_vaddr <= h.e_entry < p.p_vaddr + p.p_memsz
            },
{
    let n = h.e_phnum as int;
    let wanted = |i: int| asks_to_be_loaded(data, h, i);
    lemma_segments(data, h, n);
    lemma_selects(n, wanted);
    let picks = picks_of(n, wanted);
    assert(selects(picks, n, wanted));
    assert forall|k: int| 0 <= k < picks.len() implies has_program_header(
        data,
        h.e_phoff + #[trigger] picks[k] * h.e_phentsize,
        segments[k],
    ) by {
        law_program_header_read(data, h, picks[k], segments[k]);
    }
    assert(are_loadable(data, h, segments, picks));
    assert forall|k: int| 0 <= k < segments.len() implies {
        let p = #[trigger] segments[k];
        &&& p.p_offset + p.p_filesz <= data.len()
        &&& p.p_vaddr + p.p_memsz <= 0x8000_0000_0000
    } by {
        lemma_none_refused(data, h, n, picks[k]);
    }
}

proof fn lemma_segments(data: Seq<u8>, h: Elf64Ehdr, n: int)
    ensures
        ({
            let picks = picks_of(n, |i: int| asks_to_be_loaded(data, h, i));
            let segments = segments_of(data, h, n);
            &&& picks.len() == segments.len()
            &&& forall|k: int|
                0 <= k < picks.len() ==> phdr_of(data, h, #[trigger] picks[k]) == Some(segments[k])
                    && segments[k].p_type == 1
        }),
    decreases n,
{
    if n > 0 {
        lemma_segments(data, h, n - 1);
        let at = h.e_phoff + (n - 1) * h.e_phentsize;
        assert((n - 1) * h.e_phentsize >= 0) by (nonlinear_arith)
            requires
                1 <= n,
                0 <= h.e_phentsize,
        ;
        if at + 56 <= data.len() {
            bytes::law_read_is_there(data, at);
            bytes::law_little_endian(data, at, 1);
        }
    }
}

proof fn lemma_none_refused(data: Seq<u8>, h: Elf64Ehdr, n: int, i: int)
    requires
        first_error(data, h, n) is None,
        0 <= i < n,
    ensures
        phdr_error(data, h, i) is None,
    decreases n,
{
    if i < n - 1 {
        lemma_none_refused(data, h, n - 1, i);
    }
}

/// A file is accepted if all its program headers are there, all that ask to be loaded lie
/// in the file and end in the lower half of the address space, and one of them holds the
/// entry point.
#[verifier::rlimit(40)]
pub proof fn law_good_file_accepted(data: Seq<u8>, h: Elf64Ehdr, home: int)
    requires
        has_header(data, h),
        forall|i: int|
            0 <= i < h.e_phnum ==> h.e_phoff + #[trigger] (i * h.e_phentsize) + 56 <= data.len(),
        forall|i: int, p: Elf64Phdr|
            0 <= i < h.e_phnum && p.p_type == 1 && #[trigger] has_program_header(
                data,
                h.e_phoff + i * h.e_phentsize,
                p,
            ) ==> p.p_offset + p.p_filesz <= data.len() && p.p_vaddr + p.p_memsz
                <= 0x8000_0000_0000,
        0 <= home < h.e_phnum,
        exists|p: Elf64Phdr|
            p.p_type == 1 && #[trigger] has_program_header(
                data,
                h.e_phoff + home * h.e_phentsize,
                p,
            ) && p.p_vaddr <= h.e_entry < p.p_vaddr + p.p_memsz,
    ensures
        executable_of(data) matches Ok((g, segments)) && g == h && segments.len() > 0,
{
    law_header_read(data, h);
    let n = h.e_phnum as int;
    assert forall|i: int| 0 <= i < n implies #[trigger] phdr_error(data, h, i) is None by {
        assert(h.e_phoff + (i * h.e_phentsize) + 56 <= data.len());
        let p = phdr_of(data, h, i).unwrap();
        law_program_header_read(data, h, i, p);
    }
    lemma_no_first_error(data, h, n);
    lemma_segments(data, h, n);
    let wanted = |i: int| asks_to_be_loaded(data, h, i);
    lemma_selects(n, wanted);
    let p = choose|p: Elf64Phdr|
        p.p_type == 1 && #[trigger] has_program_header(
            data,
            h.e_phoff + home * h.e_phentsize,
            p,
        ) && p.p_vaddr <= h.e_entry < p.p_vaddr + p.p_memsz;
    law_program_header_read(data, h, home, p);
    assert(wanted(home));
    let picks = picks_of(n, wanted);
    let k = picks.index_of(home);
    assert(picks[k] == home);
    assert(segments_of(data, h, n)[k] == p);
    assert(in_segments(segments_of(data, h, n), h.e_entry));
}

proof fn lemma_no_first_error(data: Seq<u8>, h: Elf64Ehdr, n: int)
    requires
        forall|i: int| 0 <= i < n ==> #[trigger] phdr_error(data, h, i) is None,
    ensures
        first_error(data, h, n) is None,
    decreases n,
{
    if n > 0 {
        lemma_no_first_error(data, h, n - 1);
        assert(phdr_error(data, h, n - 1) is None);
    }
}

/// The address behind an executable is the end of one of its segments, and none of them
/// reaches beyond it.
pub proof fn law_image_end(segments: Seq<Elf64Phdr>)
    ensures
        forall|k: int|
            0 <= k < segments.len() ==> (#[trigger] segments[k]).p_vaddr + segments[k].p_memsz
                <= max_end(segments),
        segments.len() == 0 ==> max_end(segments) == 0,
        segments.len() > 0 ==> max_end(segments) == 0 || exists|k: int|
            0 <= k < segments.len() && (#[trigger] segments[k]).p_vaddr + segments[k].p_memsz
                == max_end(segments),
    decreases segments.len(),
{
    if segments.len() > 0 {
        let rest = segments.drop_last();
        law_image_end(rest);
        assert(forall|k: int| 0 <= k < rest.len() ==> #[trigger] rest[k] == segments[k]);
        assert(segments[segments.len() - 1] == segments.last());
        assert forall|k: int| 0 <= k < segments.len() implies (#[trigger] segments[k]).p_vaddr
            + segments[k].p_memsz <= max_end(segments) by {
            if k < rest.len() {
                assert(rest[k] == segments[k]);
            }
        }
        if max_end(segments) == max_end(rest) && max_end(segments) != 0 && rest.len() > 0 {
            let k = choose|k: int|
                0 <= k < rest.len() && (#[trigger] rest[k]).p_vaddr + rest[k].p_memsz == max_end(
                    rest,
                );
            assert(segments[k] == rest[k]);
        }
    }
}

/// The memory that an executable takes is that of its segments together: the memory of one
/// of them and that of all the others.
pub proof fn law_memory_adds_up(a: Seq<Elf64Phdr>, p: Elf64Phdr, b: Seq<Elf64Phdr>)
    ensures
        total_memory(a + seq![p] + b) == p.p_memsz + total_memory(a + b),
        total_memory(Seq::empty()) == 0,
    decreases b.len(),
{
    if b.len() == 0 {
        assert((a + seq![p] + b).drop_last() =~= a);
        assert(a + b =~= a);
    } else {
        law_memory_adds_up(a, p, b.drop_last());
        assert((a + seq![p] + b).drop_last() =~= a + seq![p] + b.drop_last());
        assert((a + b).drop_last() =~= a + b.drop_last());
    }
}

/// Every page of a segment is present and open to user mode. It can be written exactly if
/// the segment is writable, and executed exactly if the segment is executable.
pub proof fn law_page_rights(p: Elf64Phdr)
    ensures
        ({
            let f = segment_flags(p) as int;
            &&& f % 2 == 1
            &&& f / 2 % 2 == 1 <==> p.p_flags as int / 2 % 2 == 1
            &&& f / 4 % 2 == 1
            &&& f / 0x8000_0000_0000_0000 == 1 <==> p.p_flags % 2 == 0
            &&& f % 0x8000_0000_0000_0000 <= 7
        }),
{
}

/// The pages of a segment are the pages that its addresses lie in, from the lowest up.
pub proof fn law_pages_of_segment(p: Elf64Phdr, index: int)
    requires
        p.p_vaddr + p.p_memsz <= 0x8000_0000_0000,
        p.p_memsz > 0,
    ensures
        page_count(p) >= 1,
        page_load(p, 0).virt <= p.p_vaddr < page_load(p, 0).virt + 4096,
        page_load(p, page_count(p) - 1).virt < p.p_vaddr + p.p_memsz <= page_load(
            p,
            page_count(p) - 1,
        ).virt + 4096,
        0 <= index < page_count(p) - 1 ==> page_load(p, index + 1).virt == page_load(p, index).virt
            + 4096,
{
}

/// A file with a good header is refused for the first program header that is wrong: for one
/// that the file does not hold, or whose data it does not hold, as out of bounds, and for one
/// that ends above the lower half of the address space as an overlap.
pub proof fn law_first_bad_segment(data: Seq<u8>, h: Elf64Ehdr, bad: int, p: Elf64Phdr)
    requires
        has_header(data, h),
        0 <= bad < h.e_phnum,
        forall|i: int| 0 <= i < bad ==> #[trigger] phdr_error(data, h, i) is None,
    ensures
        h.e_phoff + bad * h.e_phentsize + 56 > data.len() ==> executable_of(data) == Err::<
            (Elf64Ehdr, Seq<Elf64Phdr>),
            ElfError,
        >(ElfError::SegmentOutOfBounds),
        has_program_header(data, h.e_phoff + bad * h.e_phentsize, p) && p.p_type == 1 && p.p_offset
            + p.p_filesz > data.len() ==> executable_of(data) == Err::<
            (Elf64Ehdr, Seq<Elf64Phdr>),
            ElfError,
        >(ElfError::SegmentOutOfBounds),
        has_program_header(data, h.e_phoff + bad * h.e_phentsize, p) && p.p_type == 1 && p.p_offset
            + p.p_filesz <= data.len() && p.p_vaddr + p.p_memsz > 0x8000_0000_0000
            ==> executable_of(data) == Err::<(Elf64Ehdr, Seq<Elf64Phdr>), ElfError>(
            ElfError::SegmentOverlap,
        ),
        has_program_header(data, h.e_phoff + bad * h.e_phentsize, p) && p.p_type != 1 ==> phdr_error(
            data,
            h,
            bad,
        ) is None,
{
    law_header_read(data, h);
    law_program_header_read(data, h, bad, p);
    lemma_no_first_error(data, h, bad);
    if phdr_error(data, h, bad) is Some {
        lemma_error_stays(data, h, bad, h.e_phnum as int);
    }
}

proof fn lemma_error_stays(data: Seq<u8>, h: Elf64Ehdr, bad: int, n: int)
    requires
        0 <= bad < n,
        first_error(data, h, bad) is None,
        phdr_error(data, h, bad) is Some,
    ensures
        first_error(data, h, n) == phdr_error(data, h, bad),
    decreases n,
{
    if bad < n - 1 {
        lemma_error_stays(data, h, bad, n - 1);
    }
}

} // verus!
