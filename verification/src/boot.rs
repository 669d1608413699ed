//! The boot loader: how the kernel image is laid out and relocated, and what the
//! firmware's tables mean to the kernel.
use vstd::prelude::*;

use crate::bytes;
use crate::memory;
use crate::memory::map::PhysAddr;

verus! {

/// Why the kernel cannot be loaded.
#[derive(Debug, Clone, Copy, PartialEq, Eq, Structural)]
pub enum BootError {
    BadMagic,
    NotElf64,
    HeaderOutOfBounds,
    NoSegments,
    TooSmall,
}

impl BootError {
    pub open spec fn text(self) -> Seq<char> {
        match self {
            BootError::BadMagic => "Not a valid ELF file (bad magic)"@,
            BootError::NotElf64 => "Not a 64-bit ELF (ELFCLASS64 required)"@,
            BootError::HeaderOutOfBounds => "ELF program header out of bounds"@,
            BootError::NoSegments => "ELF has no PT_LOAD segments"@,
            BootError::TooSmall => "ELF too small to have entry point field"@,
        }
    }

    pub fn description(&self) -> (r: &'static str)
        ensures
            r@ == self.text(),
    {
        match self {
            BootError::BadMagic => "Not a valid ELF file (bad magic)",
            BootError::NotElf64 => "Not a 64-bit ELF (ELFCLASS64 required)",
            BootError::HeaderOutOfBounds => "ELF program header out of bounds",
            BootError::NoSegments => "ELF has no PT_LOAD segments",
            BootError::TooSmall => "ELF too small to have entry point field",
        }
    }
}

/// A segment of the kernel image.
#[derive(Debug, Clone, Copy, PartialEq, Eq, Structural)]
pub struct KernelSegment {
    pub offset: u64,
    pub vaddr: u64,
    pub filesz: u64,
    pub memsz: u64,
}

/// The block of memory that the kernel image needs.
pub struct KernelLayout {
    pub min_vaddr: u64,
    pub max_vaddr: u64,
    pub total_pages: u64,
    pub segments: Vec<KernelSegment>,
}

/// Where the kernel was loaded. A virtual address plus `load_offset`, wrapping around,
/// is the physical one.
#[derive(Debug, Clone, Copy, PartialEq, Eq, Structural)]
pub struct LoadedKernel {
    pub phys_start: PhysAddr,
    pub phys_end: PhysAddr,
    pub load_offset: u64,
}

pub open spec fn has_magic(data: Seq<u8>) -> bool {
    data.len() >= 4 && data[0] == 0x7F && data[1] == 0x45 && data[2] == 0x4C && data[3] == 0x46
}

/// Where program header `i` starts.
pub open spec fn header_start(data: Seq<u8>, i: int) -> int {
    bytes::le64(data, 32) + i * bytes::le16(data, 54)
}

/// The number of program headers.
pub open spec fn header_count(data: Seq<u8>) -> int {
    bytes::le16(data, 56) as int
}

/// Whether the file holds all the program headers.
pub open spec fn headers_fit(data: Seq<u8>) -> bool {
    header_count(data) == 0 || header_start(data, header_count(data)) <= data.len()
}

/// Whether program header `i` is a loadable segment.
pub open spec fn is_load(data: Seq<u8>, i: int) -> bool {
    bytes::le32(data, header_start(data, i)) == 1
}

pub open spec fn kernel_segment(data: Seq<u8>, i: int) -> KernelSegment {
    let at = header_start(data, i);
    KernelSegment {
        offset: bytes::le64(data, at + 8),
        vaddr: bytes::le64(data, at + 16),
        filesz: bytes::le64(data, at + 32),
        memsz: bytes::le64(data, at + 40),
    }
}

/// The loadable segments among the first `n` program headers.
pub open spec fn kernel_segments(data: Seq<u8>, n: int) -> Seq<KernelSegment>
    decreases n,
{
    if n <= 0 {
        Seq::empty()
    } else if is_load(data, n - 1) {
        kernel_segments(data, n - 1).push(kernel_segment(data, n - 1))
    } else {
        kernel_segments(data, n - 1)
    }
}

/// The lowest address of the segments.
pub open spec fn lowest(segments: Seq<KernelSegment>) -> u64
    decreases segments.len(),
{
    if segments.len() == 0 {
        u64::MAX
    } else {
        let rest = lowest(segments.drop_last());
        if segments.last().vaddr < rest {
            segments.last().vaddr
        } else {
            rest
        }
    }
}

/// The highest end of the segments.
pub open spec fn highest(segments: Seq<KernelSegment>) -> int
    decreases segments.len(),
{
    if segments.len() == 0 {
        0
    } else {
        let rest = highest(segments.drop_last());
        let end = segments.last().vaddr + segments.last().memsz;
        if end > rest {
            end
        } else {
            rest
        }
    }
}

/// How far the segments reach, from the lowest address to the highest end.
pub open spec fn span(segments: Seq<KernelSegment>) -> int {
    highest(segments) - lowest(segments)
}

/// Whether a file can be looked at as a kernel image: the fields that are read are
/// there, and the addresses in it can be computed with.
pub open spec fn readable(data: Seq<u8>) -> bool {
    has_magic(data) ==> {
        &&& data.len() >= 5
        &&& data[4] == 2 ==> {
            &&& data.len() >= 64
            &&& header_count(data) > 0 && headers_fit(data) ==> {
                let segments = kernel_segments(data, header_count(data));
                &&& bytes::le16(data, 54) >= 48
                &&& span(segments) + 4095 <= u64::MAX
                &&& forall|i: int|
                    0 <= i < segments.len() ==> (#[trigger] segments[i]).vaddr + segments[i].memsz
                        <= u64::MAX
            }
        }
    }
}

/// The block of memory that a kernel image needs, or why it is refused.
pub open spec fn layout_error(data: Seq<u8>) -> Option<BootError> {
    if !has_magic(data) {
        Some(BootError::BadMagic)
    } else if data[4] != 2 {
        Some(BootError::NotElf64)
    } else if !headers_fit(data) {
        Some(BootError::HeaderOutOfBounds)
    } else if lowest(kernel_segments(data, header_count(data))) == u64::MAX {
        Some(BootError::NoSegments)
    } else {
        None
    }
}

proof fn lemma_header_order(data: Seq<u8>, i: int, j: int)
    requires
        0 <= i <= j,
    ensures
        header_start(data, i) <= header_start(data, j),
        header_start(data, i + 1) == header_start(data, i) + bytes::le16(data, 54),
{
    let size = bytes::le16(data, 54) as int;
    assert(i * size <= j * size) by (nonlinear_arith)
        requires
            0 <= i <= j,
            0 <= size,
    ;
    assert((i + 1) * size == i * size + size) by (nonlinear_arith);
}

proof fn lemma_segments_prefix(data: Seq<u8>, i: int, n: int)
    requires
        0 <= i <= n,
    ensures
        kernel_segments(data, i).len() <= kernel_segments(data, n).len(),
        forall|k: int|
            0 <= k < kernel_segments(data, i).len() ==> #[trigger] kernel_segments(data, i)[k]
                == kernel_segments(data, n)[k],
        highest(kernel_segments(data, i)) <= highest(kernel_segments(data, n)),
        lowest(kernel_segments(data, i)) >= lowest(kernel_segments(data, n)),
    decreases n,
{
    if i < n {
        lemma_segments_prefix(data, i, n - 1);
        let rest = kernel_segments(data, n - 1);
        if is_load(data, n - 1) {
            assert(rest.push(kernel_segment(data, n - 1)).drop_last() =~= rest);
        }
    }
}

/// Find the segments of a kernel image, the range of addresses that they span and the
/// number of pages from the first to the last of them.
pub fn kernel_layout(data: &[u8]) -> (r: Result<KernelLayout, BootError>)
    requires
        readable(data@),
    ensures
        match r {
            Err(e) => layout_error(data@) == Some(e),
            Ok(layout) => {
                &&& layout_error(data@) is None
                &&& layout.segments@ == kernel_segments(data@, header_count(data@))
                &&& layout.min_vaddr == lowest(layout.segments@)
                &&& layout.max_vaddr == highest(layout.segments@)
                &&& layout.total_pages == (span(layout.segments@) + 4095) / 4096
                &&& 4096 * layout.total_pages >= layout.max_vaddr - layout.min_vaddr
                &&& 4096 * layout.total_pages < layout.max_vaddr - layout.min_vaddr + 4096
                &&& layout.wf()
            },
        },
{
    if data.len() < 4 || !(data[0] == 0x7F && data[1] == 0x45 && data[2] == 0x4C && data[3]
        == 0x46) {
        return Err(BootError::BadMagic);
    }
    if data[4] != 2 {
        return Err(BootError::NotElf64);
    }
    let phoff: u64 = bytes::read_u64(data, 32);
    let phentsize: u16 = bytes::read_u16(data, 54);
    let phnum: u16 = bytes::read_u16(data, 56);
    let ghost n = header_count(data@);
    let ghost all = kernel_segments(data@, n);
    if phnum > 0 {
        let table: u64 = bytes::product(phnum, phentsize);
        let len: u64 = data.len() as u64;
        if phoff > len || table > len - phoff {
            return Err(BootError::HeaderOutOfBounds);
        }
    }
    let mut segments: Vec<KernelSegment> = Vec::new();
    let mut min_vaddr: u64 = u64::MAX;
    let mut max_vaddr: u64 = 0;
    let mut at: u64 = phoff;
    let mut i: u16 = 0;
    while i < phnum
        invariant
            i <= phnum,
            n == phnum,
            n == header_count(data@),
            phentsize == bytes::le16(data@, 54),
            n > 0 ==> headers_fit(data@) && phentsize >= 48,
            all == kernel_segments(data@, n),
            n > 0 ==> span(all) + 4095 <= u64::MAX,
            n > 0 ==> forall|k: int|
                0 <= k < all.len() ==> (#[trigger] all[k]).vaddr + all[k].memsz <= u64::MAX,
            at == header_start(data@, i as int),
            segments@ == kernel_segments(data@, i as int),
            min_vaddr == lowest(segments@),
            max_vaddr == highest(segments@),
        decreases phnum - i,
    {
        proof {
            lemma_header_order(data@, i as int, n);
            lemma_header_order(data@, i + 1, n);
            lemma_segments_prefix(data@, i + 1, n);
        }
        assert(at + phentsize <= data.len());
        let start: usize = at as usize;
        let p_type: u32 = bytes::read_u32(data, start);
        if p_type == 1 {
            let segment: KernelSegment = KernelSegment {
                offset: bytes::read_u64(data, start + 8),
                vaddr: bytes::read_u64(data, start + 16),
                filesz: bytes::read_u64(data, start + 32),
                memsz: bytes::read_u64(data, start + 40),
            };
            proof {
                let k = segments@.len() as int;
                assert(kernel_segments(data@, i + 1)[k] == segment);
                assert(all[k] == segment);
                assert(segments@.push(segment).drop_last() =~= segments@);
            }
            if segment.vaddr < min_vaddr {
                min_vaddr = segment.vaddr;
            }
            let end: u64 = segment.vaddr + segment.memsz;
            if end > max_vaddr {
                max_vaddr = end;
            }
            segments.push(segment);
        }
        at = at + phentsize as u64;
        i = i + 1;
    }
    if min_vaddr == u64::MAX {
        return Err(BootError::NoSegments);
    }
    proof {
        lemma_lowest_highest(segments@);
    }
    assert(segments@ == all);
    let total_pages: u64 = (max_vaddr - min_vaddr + 4095) / 4096;
    Ok(KernelLayout { min_vaddr, max_vaddr, total_pages, segments })
}

proof fn lemma_lowest_highest(segments: Seq<KernelSegment>)
    requires
        segments.len() > 0,
    ensures
        lowest(segments) <= highest(segments),
    decreases segments.len(),
{
    if segments.len() > 1 {
        lemma_lowest_highest(segments.drop_last());
    }
}

/// Whether a file can be looked at as a kernel image.
pub fn is_readable(data: &[u8]) -> (r: bool)
    ensures
        r == readable(data@),
{
    if data.len() < 4 || !(data[0] == 0x7F && data[1] == 0x45 && data[2] == 0x4C && data[3]
        == 0x46) {
        return true;
    }
    if data.len() < 5 {
        return false;
    }
    if data[4] != 2 {
        return true;
    }
    if data.len() < 64 {
        return false;
    }
    let phoff: u64 = bytes::read_u64(data, 32);
    let phentsize: u16 = bytes::read_u16(data, 54);
    let phnum: u16 = bytes::read_u16(data, 56);
    let table: u64 = bytes::product(phnum, phentsize);
    let len: u64 = data.len() as u64;
    if phnum == 0 || phoff > len || table > len - phoff {
        return true;
    }
    if phentsize < 48 {
        return false;
    }
    let ghost n = header_count(data@);
    let ghost all = kernel_segments(data@, n);
    let mut low: u64 = u64::MAX;
    let mut high: u64 = 0;
    let mut at: u64 = phoff;
    let mut i: u16 = 0;
    while i < phnum
        invariant
            i <= phnum,
            n == phnum,
            n == header_count(data@),
            data@.len() >= 64,
            has_magic(data@),
            data@[4] == 2,
            headers_fit(data@),
            phentsize == bytes::le16(data@, 54),
            phentsize >= 48,
            all == kernel_segments(data@, n),
            at == header_start(data@, i as int),
            low == lowest(kernel_segments(data@, i as int)),
            high == highest(kernel_segments(data@, i as int)),
            forall|k: int|
                0 <= k < kernel_segments(data@, i as int).len() ==> (#[trigger] kernel_segments(
                    data@,
                    i as int,
                )[k]).vaddr + kernel_segments(data@, i as int)[k].memsz <= u64::MAX,
        decreases phnum - i,
    {
        let ghost before = kernel_segments(data@, i as int);
        let ghost after = kernel_segments(data@, i + 1);
        proof {
            lemma_header_order(data@, i as int, n);
            lemma_header_order(data@, i + 1, n);
            lemma_segments_prefix(data@, i + 1, n);
        }
        assert(at + phentsize <= data.len());
        let start: usize = at as usize;
        if bytes::read_u32(data, start) == 1 {
            let vaddr: u64 = bytes::read_u64(data, start + 16);
            let memsz: u64 = bytes::read_u64(data, start + 40);
            proof {
                let k = before.len() as int;
                assert(after[k].vaddr == vaddr && after[k].memsz == memsz);
                assert(all[k] == after[k]);
                assert(after.drop_last() =~= before);
            }
            if memsz > u64::MAX - vaddr {
                return false;
            }
            if vaddr < low {
                low = vaddr;
            }
            if vaddr + memsz > high {
                high = vaddr + memsz;
            }
        }
        at = at + phentsize as u64;
        i = i + 1;
    }
    high <= low || high - low <= u64::MAX - 4095
}

/// A block of `size` zero bytes with the first `n` segments copied to their places.
pub open spec fn loaded(
    data: Seq<u8>,
    segments: Seq<KernelSegment>,
    min_vaddr: u64,
    size: nat,
    n: int,
) -> Seq<u8>
    decreases n,
{
    if n <= 0 {
        Seq::new(size, |i: int| 0u8)
    } else {
        let s = segments[n - 1];
        bytes::overlay(
            loaded(data, segments, min_vaddr, size, n - 1),
            s.vaddr - min_vaddr,
            data.subrange(s.offset as int, s.offset + s.filesz),
        )
    }
}

/// Whether a segment lies in the file, and in a block of `size` bytes.
pub open spec fn segment_fits(s: KernelSegment, file_len: int, min_vaddr: u64, size: int) -> bool {
    &&& s.offset + s.filesz <= file_len
    &&& min_vaddr <= s.vaddr
    &&& s.vaddr - min_vaddr + s.filesz <= size
}

/// Where section header `i` starts.
pub open spec fn section_start(data: Seq<u8>, i: int) -> int {
    bytes::le64(data, 40) + i * bytes::le16(data, 58)
}

/// Whether section `i` is a relocation table that the file holds.
pub open spec fn is_rela(data: Seq<u8>, i: int) -> bool {
    let at = section_start(data, i);
    &&& at + bytes::le16(data, 58) <= data.len()
    &&& bytes::le32(data, at + 4) == 4
    &&& bytes::le64(data, at + 56) != 0
    &&& bytes::le64(data, at + 24) + bytes::le64(data, at + 32) <= data.len()
}

/// The image with the relocation at byte `ent` of the file carried out. Other types of
/// relocation, and places outside the image, are left alone.
pub open spec fn relocated_one(
    image: Seq<u8>,
    data: Seq<u8>,
    ent: int,
    base_phys: u64,
    min_vaddr: u64,
) -> Seq<u8> {
    let place = memory::wrap64(bytes::le64(data, ent) - min_vaddr);
    if bytes::le32(data, ent + 8) == 8 && place + 8 <= image.len() {
        let value = memory::wrap64(base_phys + bytes::le64(data, ent + 16) - min_vaddr);
        bytes::overlay(image, place as int, bytes::le64_bytes(value))
    } else {
        image
    }
}

/// The image with the first `n` relocations of a table carried out.
pub open spec fn relocated_table(
    image: Seq<u8>,
    data: Seq<u8>,
    table: int,
    entsize: int,
    n: int,
    base_phys: u64,
    min_vaddr: u64,
) -> Seq<u8>
    decreases n,
{
    if n <= 0 {
        image
    } else {
        relocated_one(
            relocated_table(image, data, table, entsize, n - 1, base_phys, min_vaddr),
            data,
            table + (n - 1) * entsize,
            base_phys,
            min_vaddr,
        )
    }
}

/// The image with the relocation tables among the first `n` sections carried out.
pub open spec fn relocated(
    image: Seq<u8>,
    data: Seq<u8>,
    n: int,
    base_phys: u64,
    min_vaddr: u64,
) -> Seq<u8>
    decreases n,
{
    if n <= 0 {
        image
    } else {
        let before = relocated(image, data, n - 1, base_phys, min_vaddr);
        let at = section_start(data, n - 1);
        if is_rela(data, n - 1) {
            relocated_table(
                before,
                data,
                bytes::le64(data, at + 24) as int,
                bytes::le64(data, at + 56) as int,
                bytes::le64(data, at + 32) as int / bytes::le64(data, at + 56) as int,
                base_phys,
                min_vaddr,
            )
        } else {
            before
        }
    }
}

/// The number of section headers to look at; none without a section table.
pub open spec fn section_count(data: Seq<u8>) -> int {
    if bytes::le64(data, 40) == 0 {
        0
    } else {
        bytes::le16(data, 60) as int
    }
}

/// Whether the section table can be read: header and relocation entries have at least
/// the size that the format gives them.
pub open spec fn sections_readable(data: Seq<u8>) -> bool {
    &&& data.len() >= 64
    &&& section_count(data) > 0 ==> bytes::le16(data, 58) >= 64
    &&& forall|i: int|
        0 <= i < section_count(data) && #[trigger] is_rela(data, i) ==> bytes::le64(
            data,
            section_start(data, i) + 56,
        ) >= 24
}

fn is_sections_readable(data: &[u8]) -> (r: bool)
    ensures
        r == sections_readable(data@),
{
    if data.len() < 64 {
        return false;
    }
    let shoff: u64 = bytes::read_u64(data, 40);
    let shentsize: u16 = bytes::read_u16(data, 58);
    let shnum: u16 = bytes::read_u16(data, 60);
    if shoff == 0 || shnum == 0 {
        return true;
    }
    if shentsize < 64 {
        return false;
    }
    let len: u64 = data.len() as u64;
    let mut i: u16 = 0;
    while i < shnum
        invariant
            i <= shnum,
            data@.len() >= 64,
            shoff == bytes::le64(data@, 40),
            shoff != 0,
            shentsize == bytes::le16(data@, 58),
            shentsize >= 64,
            shnum == bytes::le16(data@, 60),
            len == data@.len(),
            forall|k: int|
                0 <= k < i && #[trigger] is_rela(data@, k) ==> bytes::le64(
                    data@,
                    section_start(data@, k) + 56,
                ) >= 24,
        decreases shnum - i,
    {
        let skip: u64 = bytes::product(i, shentsize);
        if shoff <= len && skip <= len - shoff && shentsize as u64 <= len - shoff - skip {
            assert(shoff + skip + shentsize <= data.len());
            let at: usize = (shoff + skip) as usize;
            assert(at == section_start(data@, i as int));
            assert(at + shentsize <= data.len());
            let sh_type: u32 = bytes::read_u32(data, at + 4);
            let sh_offset: u64 = bytes::read_u64(data, at + 24);
            let sh_size: u64 = bytes::read_u64(data, at + 32);
            let sh_entsize: u64 = bytes::read_u64(data, at + 56);
            if sh_type == 4 && sh_entsize != 0 && sh_offset <= len && sh_size <= len - sh_offset
                && sh_entsize < 24 {
                assert(is_rela(data@, i as int));
                return false;
            }
        }
        i = i + 1;
    }
    true
}

impl KernelLayout {
    pub open spec fn wf(&self) -> bool {
        &&& self.segments@.len() > 0
        &&& self.min_vaddr == lowest(self.segments@)
        &&& self.max_vaddr == highest(self.segments@)
        &&& self.min_vaddr <= self.max_vaddr
    }

    /// Whether the image can be loaded at an address: all that is copied lies in the file
    /// and in the block of memory, and the section table can be read.
    pub open spec fn fits(&self, data: Seq<u8>, base_phys: u64) -> bool {
        &&& self.total_pages * 4096 <= usize::MAX
        &&& base_phys + (self.max_vaddr - self.min_vaddr) <= u64::MAX
        &&& sections_readable(data)
        &&& forall|i: int|
            0 <= i < self.segments@.len() ==> segment_fits(
                #[trigger] self.segments@[i],
                data.len() as int,
                self.min_vaddr,
                self.total_pages * 4096,
            )
    }

    /// Checks whether the image can be loaded at an address.
    pub fn is_loadable(&self, data: &[u8], base_phys: u64) -> (r: bool)
        requires
            self.wf(),
        ensures
            r == self.fits(data@, base_phys),
    {
        if self.total_pages > (usize::MAX / 4096) as u64 {
            return false;
        }
        if self.max_vaddr - self.min_vaddr > u64::MAX - base_phys || !is_sections_readable(data) {
            return false;
        }
        let size: u64 = self.total_pages * 4096;
        let len: u64 = data.len() as u64;
        let mut i: usize = 0;
        while i < self.segments.len()
            invariant
                i <= self.segments@.len(),
                size == self.total_pages * 4096,
                len == data@.len(),
                forall|k: int|
                    0 <= k < i ==> segment_fits(
                        #[trigger] self.segments@[k],
                        data@.len() as int,
                        self.min_vaddr,
                        size as int,
                    ),
            decreases self.segments@.len() - i,
        {
            let s: KernelSegment = self.segments[i];
            let in_file: bool = s.filesz <= len && s.offset <= len - s.filesz;
            let in_block: bool = s.filesz <= size && self.min_vaddr <= s.vaddr && s.vaddr
                - self.min_vaddr <= size - s.filesz;
            if !in_file || !in_block {
                assert(!segment_fits(
                    self.segments@[i as int],
                    data@.len() as int,
                    self.min_vaddr,
                    size as int,
                ));
                return false;
            }
            i = i + 1;
        }
        true
    }
}

/// Carry out one relocation.
fn apply_one(data: &[u8], image: &mut Vec<u8>, ent: usize, base_phys: u64, min_vaddr: u64)
    requires
        ent + 24 <= data@.len(),
    ensures
        final(image)@ == relocated_one(old(image)@, data@, ent as int, base_phys, min_vaddr),
        final(image)@.len() == old(image)@.len(),
{
    assert(ent + 24 <= data.len());
    let kind: u32 = bytes::read_u32(data, ent + 8);
    let place: u64 = memory::difference(bytes::read_u64(data, ent), min_vaddr);
    if kind == 8 && image.len() >= 8 && place <= (image.len() - 8) as u64 {
        let addend: u64 = bytes::read_u64(data, ent + 16);
        let value: u64 = memory::moved(addend, base_phys, min_vaddr);
        bytes::write_u64(image, place as usize, value);
    }
}

/// Carry out the relocations of one table.
fn apply_table(
    data: &[u8],
    image: &mut Vec<u8>,
    table: u64,
    entsize: u64,
    count: u64,
    base_phys: u64,
    min_vaddr: u64,
)
    requires
        entsize >= 24,
        table + count * entsize <= data@.len(),
    ensures
        final(image)@ == relocated_table(
            old(image)@,
            data@,
            table as int,
            entsize as int,
            count as int,
            base_phys,
            min_vaddr,
        ),
        final(image)@.len() == old(image)@.len(),
{
    let ghost before = image@;
    let mut j: u64 = 0;
    let mut ent: u64 = table;
    while j < count
        invariant
            j <= count,
            entsize >= 24,
            table + count * entsize <= data@.len(),
            ent == table + j * entsize,
            image@.len() == before.len(),
            image@ == relocated_table(
                before,
                data@,
                table as int,
                entsize as int,
                j as int,
                base_phys,
                min_vaddr,
            ),
        decreases count - j,
    {
        assert((j + 1) * entsize <= count * entsize && (j + 1) * entsize == j * entsize + entsize)
            by (nonlinear_arith)
            requires
                j + 1 <= count,
                entsize >= 24,
        ;
        assert(ent + entsize <= data.len());
        assert(j * entsize == (j + 1 - 1) * entsize);
        apply_one(data, image, ent as usize, base_phys, min_vaddr);
        ent = ent + entsize;
        j = j + 1;
    }
}

/// Apply the relative relocations of the file to the loaded image: each place gets its
/// addend, moved from the linked addresses to the physical ones.
pub fn apply_relocations(elf_data: &[u8], image: &mut Vec<u8>, base_phys: u64, min_vaddr: u64)
    requires
        sections_readable(elf_data@),
    ensures
        final(image)@ == relocated(
            old(image)@,
            elf_data@,
            section_count(elf_data@),
            base_phys,
            min_vaddr,
        ),
        final(image)@.len() == old(image)@.len(),
{
    let data: &[u8] = elf_data;
    let shoff: u64 = bytes::read_u64(data, 40);
    let shentsize: u16 = bytes::read_u16(data, 58);
    let shnum: u16 = bytes::read_u16(data, 60);
    if shoff == 0 || shnum == 0 {
        return;
    }
    let ghost before = image@;
    let len: u64 = data.len() as u64;
    let mut i: u16 = 0;
    while i < shnum
        invariant
            i <= shnum,
            data@ == elf_data@,
            sections_readable(data@),
            shoff == bytes::le64(data@, 40),
            shoff != 0,
            shentsize == bytes::le16(data@, 58),
            shnum == bytes::le16(data@, 60),
            len == data@.len(),
            image@.len() == before.len(),
            image@ == relocated(before, data@, i as int, base_phys, min_vaddr),
        decreases shnum - i,
    {
        let skip: u64 = bytes::product(i, shentsize);
        if shoff <= len && skip <= len - shoff && shentsize as u64 <= len - shoff - skip {
            assert(shoff + skip + shentsize <= data.len());
            let at: usize = (shoff + skip) as usize;
            assert(at == section_start(data@, i as int));
            assert(at + shentsize <= data.len());
            let sh_type: u32 = bytes::read_u32(data, at + 4);
            let sh_offset: u64 = bytes::read_u64(data, at + 24);
            let sh_size: u64 = bytes::read_u64(data, at + 32);
            let sh_entsize: u64 = bytes::read_u64(data, at + 56);
            if sh_type == 4 && sh_entsize != 0 && sh_offset <= len && sh_size <= len - sh_offset {
                assert(is_rela(data@, i as int));
                let count: u64 = sh_size / sh_entsize;
                proof {
                    vstd::arithmetic::div_mod::lemma_fundamental_div_mod(
                        sh_size as int,
                        sh_entsize as int,
                    );
                    vstd::arithmetic::mul::lemma_mul_is_commutative(
                        count as int,
                        sh_entsize as int,
                    );
                }
                apply_table(data, image, sh_offset, sh_entsize, count, base_phys, min_vaddr);
            }
        }
        i = i + 1;
    }
}

/// Copy the segments into a block of memory at `base_phys` and relocate them there.
/// What no segment fills is zero.
pub fn load_kernel(data: &[u8], layout: &KernelLayout, base_phys: u64) -> (r: (
    Vec<u8>,
    LoadedKernel,
))
    requires
        layout.wf(),
        layout.fits(data@, base_phys),
    ensures
        r.0@ == relocated(
            loaded(
                data@,
                layout.segments@,
                layout.min_vaddr,
                (layout.total_pages * 4096) as nat,
                layout.segments@.len() as int,
            ),
            data@,
            section_count(data@),
            base_phys,
            layout.min_vaddr,
        ),
        r.1.phys_start.addr == base_phys,
        r.1.phys_end.addr == base_phys + (layout.max_vaddr - layout.min_vaddr),
        r.1.load_offset == memory::wrap64(base_phys - layout.min_vaddr),
{
    let size: usize = (layout.total_pages * 4096) as usize;
    let mut image: Vec<u8> = vec![0u8; size];
    assert(image@ =~= Seq::new(size as nat, |i: int| 0u8));
    let mut i: usize = 0;
    while i < layout.segments.len()
        invariant
            i <= layout.segments@.len(),
            size == layout.total_pages * 4096,
            image@.len() == size,
            image@ == loaded(
                data@,
                layout.segments@,
                layout.min_vaddr,
                size as nat,
                i as int,
            ),
            forall|k: int|
                0 <= k < layout.segments@.len() ==> segment_fits(
                    #[trigger] layout.segments@[k],
                    data@.len() as int,
                    layout.min_vaddr,
                    size as int,
                ),
        decreases layout.segments@.len() - i,
    {
        let s: KernelSegment = layout.segments[i];
        assert(s == layout.segments@[i as int]);
        assert(s.offset + s.filesz <= data.len());
        assert(s.vaddr - layout.min_vaddr + s.filesz <= image.len());
        bytes::copy_range(
            image.as_mut_slice(),
            (s.vaddr - layout.min_vaddr) as usize,
            data,
            s.offset as usize,
            s.filesz as usize,
        );
        i = i + 1;
    }
    apply_relocations(data, &mut image, base_phys, layout.min_vaddr);
    let loaded: LoadedKernel = LoadedKernel {
        phys_start: PhysAddr::new(base_phys),
        phys_end: PhysAddr::new(base_phys + (layout.max_vaddr - layout.min_vaddr)),
        load_offset: base_phys.wrapping_sub(layout.min_vaddr),
    };
    (image, loaded)
}

/// The entry point of an ELF file.
pub fn get_elf_entry(data: &[u8]) -> (r: Result<u64, BootError>)
    requires
        data@.len() < 24 || data@.len() >= 32,
    ensures
        r == if data@.len() < 24 {
            Err::<u64, BootError>(BootError::TooSmall)
        } else {
            Ok(bytes::le64(data@, 24))
        },
        r matches Ok(entry) ==> bytes::has64(data@, 24, entry as int),
{
    if data.len() < 24 {
        return Err(BootError::TooSmall);
    }
    proof {
        bytes::law_read_is_there(data@, 24);
    }
    Ok(bytes::read_u64(data, 24))
}

/// The physical address of the kernel's entry point.
pub fn entry_phys(entry_virt: u64, load_offset: u64) -> (r: u64)
    ensures
        r == memory::wrap64(entry_virt + load_offset),
{
    entry_virt.wrapping_add(load_offset)
}

/// Which table an entry of the firmware's configuration table points to.
#[derive(Debug, Clone, Copy, PartialEq, Eq, Structural)]
pub enum ConfigTable {
    Acpi2,
    Acpi1,
    Other,
}

/// The first entry of a kind.
pub open spec fn first_of(entries: Seq<(ConfigTable, u64)>, kind: ConfigTable, n: int) -> Option<
    u64,
>
    decreases n,
{
    if n <= 0 {
        None
    } else {
        match first_of(entries, kind, n - 1) {
            Some(a) => Some(a),
            None => if entries[n - 1].0 == kind {
                Some(entries[n - 1].1)
            } else {
                None
            },
        }
    }
}

proof fn lemma_first_of(entries: Seq<(ConfigTable, u64)>, kind: ConfigTable, i: int, n: int)
    requires
        0 <= i < n,
        first_of(entries, kind, i) is None,
        entries[i].0 == kind,
    ensures
        first_of(entries, kind, n) == Some(entries[i].1),
    decreases n,
{
    if i < n - 1 {
        lemma_first_of(entries, kind, i, n - 1);
    }
}

fn find_table(entries: &[(ConfigTable, u64)], kind: ConfigTable) -> (r: Option<u64>)
    ensures
        r == first_of(entries@, kind, entries@.len() as int),
{
    let mut i: usize = 0;
    while i < entries.len()
        invariant
            i <= entries@.len(),
            first_of(entries@, kind, i as int) is None,
        decreases entries@.len() - i,
    {
        if entries[i].0 == kind {
            proof {
                lemma_first_of(entries@, kind, i as int, entries@.len() as int);
            }
            return Some(entries[i].1);
        }
        i = i + 1;
    }
    None
}

/// The address of the ACPI root pointer: from a table of ACPI 2 if there is one, else
/// from one of ACPI 1, else 0.
pub fn find_rsdp(entries: &[(ConfigTable, u64)]) -> (r: PhysAddr)
    ensures
        r.addr == match first_of(entries@, ConfigTable::Acpi2, entries@.len() as int) {
            Some(a) => a,
            None => match first_of(entries@, ConfigTable::Acpi1, entries@.len() as int) {
                Some(a) => a,
                None => 0,
            },
        },
{
    match find_table(entries, ConfigTable::Acpi2) {
        Some(a) => PhysAddr::new(a),
        None => match find_table(entries, ConfigTable::Acpi1) {
            Some(a) => PhysAddr::new(a),
            None => PhysAddr::new(0),
        },
    }
}

/// How the bytes of a pixel are ordered.
#[derive(Debug, Clone, Copy, PartialEq, Eq, Structural)]
pub enum PixelFormat {
    Rgb,
    Bgr,
    Bitmask,
    Unknown,
}

/// The linear framebuffer.
#[derive(Debug, Clone, Copy, PartialEq, Eq, Structural)]
pub struct FramebufferInfo {
    pub base: PhysAddr,
    pub size: u64,
    pub width: u32,
    pub height: u32,
    pub stride: u32,
    pub pixel_format: PixelFormat,
}

/// The framebuffer that the firmware reported, or an empty one.
pub fn query_framebuffer(found: Option<FramebufferInfo>) -> (r: FramebufferInfo)
    ensures
        r == match found {
            Some(info) => info,
            None => FramebufferInfo {
                base: PhysAddr { addr: 0 },
                size: 0,
                width: 0,
                height: 0,
                stride: 0,
                pixel_format: PixelFormat::Unknown,
            },
        },
{
    match found {
        Some(info) => info,
        None => FramebufferInfo {
            base: PhysAddr::new(0),
            size: 0,
            width: 0,
            height: 0,
            stride: 0,
            pixel_format: PixelFormat::Unknown,
        },
    }
}

/// Segments keep their distances: if no two of them overlap, the byte `k` of segment `i`
/// comes to lie where its virtual address says, counted from the lowest one.
pub proof fn law_segment_loaded(
    data: Seq<u8>,
    segments: Seq<KernelSegment>,
    min_vaddr: u64,
    size: nat,
    n: int,
    i: int,
    k: int,
)
    requires
        0 <= i < n <= segments.len(),
        0 <= k < segments[i].filesz,
        forall|j: int|
            0 <= j < n ==> segment_fits(
                #[trigger] segments[j],
                data.len() as int,
                min_vaddr,
                size as int,
            ),
        forall|j: int|
            0 <= j < n && j != i ==> (#[trigger] segments[j]).vaddr + segments[j].filesz
                <= segments[i].vaddr || segments[i].vaddr + segments[i].filesz <= segments[j].vaddr,
    ensures
        loaded(data, segments, min_vaddr, size, n)[segments[i].vaddr - min_vaddr + k]
            == data[segments[i].offset + k],
        loaded(data, segments, min_vaddr, size, n).len() == size,
    decreases n,
{
    lemma_loaded_len(data, segments, min_vaddr, size, n - 1);
    if i < n - 1 {
        law_segment_loaded(data, segments, min_vaddr, size, n - 1, i, k);
    }
}

proof fn lemma_loaded_len(
    data: Seq<u8>,
    segments: Seq<KernelSegment>,
    min_vaddr: u64,
    size: nat,
    n: int,
)
    ensures
        loaded(data, segments, min_vaddr, size, n).len() == size,
    decreases n,
{
    if n > 0 {
        lemma_loaded_len(data, segments, min_vaddr, size, n - 1);
    }
}

/// A virtual address of the image plus the load offset is its physical address.
pub proof fn law_load_offset(base_phys: u64, min_vaddr: u64, addr: u64)
    requires
        min_vaddr <= addr,
        base_phys + (addr - min_vaddr) <= u64::MAX,
    ensures
        memory::wrap64(addr + memory::wrap64(base_phys - min_vaddr)) == base_phys + (addr
            - min_vaddr),
{
}

} // verus!
