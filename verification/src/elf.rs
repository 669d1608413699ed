//! The ELF64 loader: what a valid executable is, and which bytes of it go to which page.
//!
//! A loadable segment asks for `memsz` bytes at its virtual address. The first `filesz`
//! of them are in the file; the rest are zero.
use vstd::prelude::*;

use crate::bytes;
use crate::memory::map::PhysAddr;
use crate::memory::pmm;
use crate::memory::pmm::Pmm;
use crate::memory::{FLAG_NO_EXECUTE, FLAG_PRESENT, FLAG_USER, FLAG_WRITABLE, PAGE_SIZE, USER_SPACE_END};

verus! {

/// Segment type of loadable segments.
pub const PT_LOAD: u32 = 1;

/// Errors that can occur during ELF loading.
#[derive(Debug, Clone, Copy, PartialEq, Eq, Structural)]
pub enum ElfError {
    BadMagic,
    NotElf64,
    NotLittleEndian,
    NotExecutable,
    NoProgramHeaders,
    SegmentOutOfBounds,
    SegmentOverlap,
    MapFailed,
}

impl ElfError {
    pub open spec fn text(self) -> Seq<char> {
        match self {
            ElfError::BadMagic => "bad ELF magic"@,
            ElfError::NotElf64 => "not ELF64"@,
            ElfError::NotLittleEndian => "not little-endian"@,
            ElfError::NotExecutable => "not an executable (ET_EXEC or ET_DYN)"@,
            ElfError::NoProgramHeaders => "no program headers"@,
            ElfError::SegmentOutOfBounds => "segment data out of ELF bounds"@,
            ElfError::SegmentOverlap => "segment overlaps kernel address space"@,
            ElfError::MapFailed => "failed to map segment pages"@,
        }
    }

    pub fn description(&self) -> (r: &'static str)
        ensures
            r@ == self.text(),
    {
        match self {
            ElfError::BadMagic => "bad ELF magic",
            ElfError::NotElf64 => "not ELF64",
            ElfError::NotLittleEndian => "not little-endian",
            ElfError::NotExecutable => "not an executable (ET_EXEC or ET_DYN)",
            ElfError::NoProgramHeaders => "no program headers",
            ElfError::SegmentOutOfBounds => "segment data out of ELF bounds",
            ElfError::SegmentOverlap => "segment overlaps kernel address space",
            ElfError::MapFailed => "failed to map segment pages",
        }
    }
}

/// Information about a loaded ELF binary.
#[derive(Debug, Clone, Copy, PartialEq, Eq, Structural)]
pub struct ElfImage {
    /// Virtual address of the entry point.
    pub entry: u64,
    /// Highest virtual address used by any loaded segment.
    pub max_addr: u64,
}

/// The fields of the ELF header that the loader reads.
#[derive(Debug, Clone, Copy, PartialEq, Eq, Structural)]
pub struct Elf64Ehdr {
    pub e_type: u16,
    pub e_entry: u64,
    pub e_phoff: u64,
    pub e_phentsize: u16,
    pub e_phnum: u16,
}

/// A program header.
#[derive(Debug, Clone, Copy, PartialEq, Eq, Structural)]
pub struct Elf64Phdr {
    pub p_type: u32,
    pub p_flags: u32,
    pub p_offset: u64,
    pub p_vaddr: u64,
    pub p_paddr: u64,
    pub p_filesz: u64,
    pub p_memsz: u64,
    pub p_align: u64,
}

/// What one page of a loaded segment holds: `data_len` bytes of the file from
/// `src_offset` on, placed `dst_offset` bytes into the page, and `bss_len` zero bytes
/// behind them.
#[derive(Debug, Clone, Copy, PartialEq, Eq, Structural)]
pub struct PageLoad {
    pub virt: u64,
    pub flags: u64,
    pub dst_offset: u64,
    pub src_offset: u64,
    pub data_len: u64,
    pub bss_len: u64,
}

/// What the ELF header of `data` says, or why it is refused.
pub open spec fn ehdr_of(data: Seq<u8>) -> Result<Elf64Ehdr, ElfError> {
    if data.len() < 64 {
        Err(ElfError::BadMagic)
    } else if !(data[0] == 0x7F && data[1] == 0x45 && data[2] == 0x4C && data[3] == 0x46) {
        Err(ElfError::BadMagic)
    } else if data[4] != 2 {
        Err(ElfError::NotElf64)
    } else if data[5] != 1 {
        Err(ElfError::NotLittleEndian)
    } else if bytes::le16(data, 16) != 2 && bytes::le16(data, 16) != 3 {
        Err(ElfError::NotExecutable)
    } else if bytes::le16(data, 56) == 0 {
        Err(ElfError::NoProgramHeaders)
    } else {
        Ok(
            Elf64Ehdr {
                e_type: bytes::le16(data, 16),
                e_entry: bytes::le64(data, 24),
                e_phoff: bytes::le64(data, 32),
                e_phentsize: bytes::le16(data, 54),
                e_phnum: bytes::le16(data, 56),
            },
        )
    }
}

/// The program header that starts at byte `at`.
pub open spec fn phdr_at(data: Seq<u8>, at: int) -> Elf64Phdr {
    Elf64Phdr {
        p_type: bytes::le32(data, at),
        p_flags: bytes::le32(data, at + 4),
        p_offset: bytes::le64(data, at + 8),
        p_vaddr: bytes::le64(data, at + 16),
        p_paddr: bytes::le64(data, at + 24),
        p_filesz: bytes::le64(data, at + 32),
        p_memsz: bytes::le64(data, at + 40),
        p_align: bytes::le64(data, at + 48),
    }
}

/// The program header with the given number, if the file holds all of it.
pub open spec fn phdr_of(data: Seq<u8>, h: Elf64Ehdr, index: int) -> Option<Elf64Phdr> {
    let at = h.e_phoff + index * h.e_phentsize;
    if at + 56 > data.len() {
        None
    } else {
        Some(phdr_at(data, at))
    }
}

/// Why program header `index` is refused.
pub open spec fn phdr_error(data: Seq<u8>, h: Elf64Ehdr, index: int) -> Option<ElfError> {
    match phdr_of(data, h, index) {
        None => Some(ElfError::SegmentOutOfBounds),
        Some(p) => if p.p_type != PT_LOAD {
            None
        } else if p.p_offset + p.p_filesz > data.len() {
            Some(ElfError::SegmentOutOfBounds)
        } else if p.p_vaddr + p.p_memsz > USER_SPACE_END {
            Some(ElfError::SegmentOverlap)
        } else {
            None
        },
    }
}

/// Why one of the first `n` program headers is refused: the first refusal.
pub open spec fn first_error(data: Seq<u8>, h: Elf64Ehdr, n: int) -> Option<ElfError>
    decreases n,
{
    if n <= 0 {
        None
    } else {
        match first_error(data, h, n - 1) {
            Some(e) => Some(e),
            None => phdr_error(data, h, n - 1),
        }
    }
}

/// The loadable segments among the first `n` program headers.
pub open spec fn segments_of(data: Seq<u8>, h: Elf64Ehdr, n: int) -> Seq<Elf64Phdr>
    decreases n,
{
    if n <= 0 {
        Seq::empty()
    } else {
        let rest = segments_of(data, h, n - 1);
        match phdr_of(data, h, n - 1) {
            Some(p) => if p.p_type == PT_LOAD {
                rest.push(p)
            } else {
                rest
            },
            None => rest,
        }
    }
}

/// Whether an address lies in one of the segments.
pub open spec fn in_segments(segments: Seq<Elf64Phdr>, addr: u64) -> bool {
    exists|i: int|
        0 <= i < segments.len() && (#[trigger] segments[i]).p_vaddr <= addr
            < segments[i].p_vaddr + segments[i].p_memsz
}

/// The end of the highest of the segments.
pub open spec fn max_end(segments: Seq<Elf64Phdr>) -> int
    decreases segments.len(),
{
    if segments.len() == 0 {
        0
    } else {
        let below = max_end(segments.drop_last());
        let end = segments.last().p_vaddr + segments.last().p_memsz;
        if end > below {
            end
        } else {
            below
        }
    }
}

/// The memory that all the segments take.
pub open spec fn total_memory(segments: Seq<Elf64Phdr>) -> int
    decreases segments.len(),
{
    if segments.len() == 0 {
        0
    } else {
        total_memory(segments.drop_last()) + segments.last().p_memsz
    }
}

/// The header and the loadable segments of an executable, or why it is refused: a bad
/// header, a segment that the file does not hold or that reaches out of user space, or
/// an entry point outside every segment.
pub open spec fn executable_of(data: Seq<u8>) -> Result<(Elf64Ehdr, Seq<Elf64Phdr>), ElfError> {
    match ehdr_of(data) {
        Err(e) => Err(e),
        Ok(h) => match first_error(data, h, h.e_phnum as int) {
            Some(e) => Err(e),
            None => {
                let segments = segments_of(data, h, h.e_phnum as int);
                if in_segments(segments, h.e_entry) {
                    Ok((h, segments))
                } else {
                    Err(ElfError::SegmentOutOfBounds)
                }
            },
        },
    }
}

/// Whether the bounds that the loader checks hold of a segment.
pub open spec fn segment_ok(p: Elf64Phdr, file_len: int) -> bool {
    &&& p.p_type == PT_LOAD
    &&& p.p_offset + p.p_filesz <= file_len
    &&& p.p_vaddr + p.p_memsz <= USER_SPACE_END
}

/// The page flags of a segment: data is not executable, code is not writable unless
/// the segment says so.
pub open spec fn segment_flags(p: Elf64Phdr) -> u64 {
    (FLAG_PRESENT + FLAG_USER + (if p.p_flags / 2 % 2 == 1 {
        FLAG_WRITABLE as int
    } else {
        0
    }) + (if p.p_flags % 2 == 0 {
        FLAG_NO_EXECUTE as int
    } else {
        0
    })) as u64
}

/// The first page of a segment.
pub open spec fn first_page(p: Elf64Phdr) -> int {
    p.p_vaddr - p.p_vaddr % 4096
}

/// The number of pages of a segment.
pub open spec fn page_count(p: Elf64Phdr) -> int {
    (p.p_vaddr + p.p_memsz + 4095) / 4096 - p.p_vaddr as int / 4096
}

/// The virtual addresses of a segment that lie in page `index` of it.
pub open spec fn page_low(p: Elf64Phdr, index: int) -> int {
    if index == 0 {
        p.p_vaddr as int
    } else {
        first_page(p) + index * 4096
    }
}

pub open spec fn page_high(p: Elf64Phdr, index: int) -> int {
    let end = p.p_vaddr + p.p_memsz;
    let top = first_page(p) + index * 4096 + 4096;
    if end < top {
        end
    } else {
        top
    }
}

/// The address behind the last byte of page `index` that the file holds.
pub open spec fn data_high(p: Elf64Phdr, index: int) -> int {
    let end = p.p_vaddr + p.p_filesz;
    if end < page_low(p, index) {
        page_low(p, index)
    } else if end < page_high(p, index) {
        end
    } else {
        page_high(p, index)
    }
}

/// What page `index` of a segment holds.
pub open spec fn page_load(p: Elf64Phdr, index: int) -> PageLoad {
    PageLoad {
        virt: (first_page(p) + index * 4096) as u64,
        flags: segment_flags(p),
        dst_offset: (page_low(p, index) - first_page(p) - index * 4096) as u64,
        src_offset: (if data_high(p, index) > page_low(p, index) {
            p.p_offset + (page_low(p, index) - p.p_vaddr)
        } else {
            0
        }) as u64,
        data_len: (data_high(p, index) - page_low(p, index)) as u64,
        bss_len: (page_high(p, index) - data_high(p, index)) as u64,
    }
}

/// Parse the ELF64 header.
pub fn parse_ehdr(data: &[u8]) -> (r: Result<Elf64Ehdr, ElfError>)
    ensures
        r == ehdr_of(data@),
{
    if data.len() < 64 {
        return Err(ElfError::BadMagic);
    }
    if !(data[0] == 0x7F && data[1] == 0x45 && data[2] == 0x4C && data[3] == 0x46) {
        return Err(ElfError::BadMagic);
    }
    if data[4] != 2 {
        return Err(ElfError::NotElf64);
    }
    if data[5] != 1 {
        return Err(ElfError::NotLittleEndian);
    }
    let e_type: u16 = bytes::read_u16(data, 16);
    if e_type != 2 && e_type != 3 {
        return Err(ElfError::NotExecutable);
    }
    let e_entry: u64 = bytes::read_u64(data, 24);
    let e_phoff: u64 = bytes::read_u64(data, 32);
    let e_phentsize: u16 = bytes::read_u16(data, 54);
    let e_phnum: u16 = bytes::read_u16(data, 56);
    if e_phnum == 0 {
        return Err(ElfError::NoProgramHeaders);
    }
    Ok(Elf64Ehdr { e_type, e_entry, e_phoff, e_phentsize, e_phnum })
}

/// Parse a single program header.
pub fn parse_phdr(data: &[u8], h: &Elf64Ehdr, index: u16) -> (r: Option<Elf64Phdr>)
    ensures
        r == phdr_of(data@, *h, index as int),
{
    let skip: u64 = bytes::product(index, h.e_phentsize);
    if h.e_phoff > data.len() as u64 || skip > data.len() as u64 {
        return None;
    }
    if data.len() < 56 || h.e_phoff as usize > data.len() - 56 {
        return None;
    }
    if skip > (data.len() - 56 - h.e_phoff as usize) as u64 {
        return None;
    }
    let at: usize = h.e_phoff as usize + skip as usize;
    assert(at + 56 <= data.len());
    Some(
        Elf64Phdr {
            p_type: bytes::read_u32(data, at),
            p_flags: bytes::read_u32(data, at + 4),
            p_offset: bytes::read_u64(data, at + 8),
            p_vaddr: bytes::read_u64(data, at + 16),
            p_paddr: bytes::read_u64(data, at + 24),
            p_filesz: bytes::read_u64(data, at + 32),
            p_memsz: bytes::read_u64(data, at + 40),
            p_align: bytes::read_u64(data, at + 48),
        },
    )
}

/// The segments of an executable, or why it is refused.
fn read_executable(data: &[u8]) -> (r: Result<(Elf64Ehdr, Vec<Elf64Phdr>), ElfError>)
    ensures
        match (r, executable_of(data@)) {
            (Ok((h, s)), Ok((eh, es))) => h == eh && s@ == es,
            (Err(e), Err(ee)) => e == ee,
            _ => false,
        },
        r matches Ok((h, s)) ==> s@.len() <= 0xFFFF && forall|i: int|
            0 <= i < s@.len() ==> segment_ok(#[trigger] s@[i], data@.len() as int),
{
    let h: Elf64Ehdr = match parse_ehdr(data) {
        Ok(h) => h,
        Err(e) => {
            return Err(e);
        },
    };
    let mut segments: Vec<Elf64Phdr> = Vec::new();
    let mut entry_found: bool = false;
    let mut i: u16 = 0;
    while i < h.e_phnum
        invariant
            ehdr_of(data@) == Ok::<Elf64Ehdr, ElfError>(h),
            i <= h.e_phnum,
            first_error(data@, h, i as int) is None,
            segments@ == segments_of(data@, h, i as int),
            segments@.len() <= i,
            entry_found == in_segments(segments@, h.e_entry),
            forall|k: int|
                0 <= k < segments@.len() ==> segment_ok(
                    #[trigger] segments@[k],
                    data@.len() as int,
                ),
        decreases h.e_phnum - i,
    {
        let found: Option<Elf64Phdr> = parse_phdr(data, &h, i);
        proof {
            if phdr_error(data@, h, i as int) is Some {
                lemma_first_error(data@, h, i as int, h.e_phnum as int);
            }
        }
        let p: Elf64Phdr = match found {
            Some(p) => p,
            None => {
                return Err(ElfError::SegmentOutOfBounds);
            },
        };
        if p.p_type == PT_LOAD {
            let len: u64 = data.len() as u64;
            if p.p_offset > len || p.p_filesz > len - p.p_offset {
                return Err(ElfError::SegmentOutOfBounds);
            }
            if p.p_vaddr > USER_SPACE_END || p.p_memsz > USER_SPACE_END - p.p_vaddr {
                return Err(ElfError::SegmentOverlap);
            }
            let ghost before = segments@;
            segments.push(p);
            if h.e_entry >= p.p_vaddr && h.e_entry - p.p_vaddr < p.p_memsz {
                entry_found = true;
                assert(segments@[before.len() as int] == p);
            }
            proof {
                if in_segments(before, h.e_entry) {
                    let k = choose|k: int|
                        0 <= k < before.len() && (#[trigger] before[k]).p_vaddr <= h.e_entry
                            < before[k].p_vaddr + before[k].p_memsz;
                    assert(segments@[k] == before[k]);
                }
                if in_segments(segments@, h.e_entry) {
                    let k = choose|k: int|
                        0 <= k < segments@.len() && (#[trigger] segments@[k]).p_vaddr <= h.e_entry
                            < segments@[k].p_vaddr + segments@[k].p_memsz;
                    if k < before.len() {
                        assert(before[k] == segments@[k]);
                    }
                }
            }
        }
        i = i + 1;
    }
    if !entry_found {
        return Err(ElfError::SegmentOutOfBounds);
    }
    Ok((h, segments))
}

proof fn lemma_first_error(data: Seq<u8>, h: Elf64Ehdr, i: int, n: int)
    requires
        0 <= i < n,
        first_error(data, h, i) is None,
        phdr_error(data, h, i) is Some,
    ensures
        first_error(data, h, n) == phdr_error(data, h, i),
    decreases n,
{
    if n > i + 1 {
        lemma_first_error(data, h, i, n - 1);
    }
}

/// Check an ELF binary and list its loadable segments. The pages that each of them asks
/// for come from `load_page`.
pub fn load_elf(elf_data: &[u8]) -> (r: Result<(ElfImage, Vec<Elf64Phdr>), ElfError>)
    ensures
        match (r, executable_of(elf_data@)) {
            (Ok((image, segments)), Ok((h, es))) => {
                &&& segments@ == es
                &&& image.entry == h.e_entry
                &&& image.max_addr == max_end(es)
                &&& forall|i: int|
                    0 <= i < es.len() ==> (#[trigger] es[i]).p_vaddr + es[i].p_memsz
                        <= image.max_addr
                &&& forall|i: int|
                    0 <= i < es.len() ==> segment_ok(#[trigger] es[i], elf_data@.len() as int)
            },
            (Err(e), Err(ee)) => e == ee,
            _ => false,
        },
{
    let (h, segments): (Elf64Ehdr, Vec<Elf64Phdr>) = match read_executable(elf_data) {
        Ok(x) => x,
        Err(e) => {
            return Err(e);
        },
    };
    let mut max_addr: u64 = 0;
    let mut i: usize = 0;
    while i < segments.len()
        invariant
            i <= segments@.len(),
            forall|k: int|
                0 <= k < segments@.len() ==> segment_ok(
                    #[trigger] segments@[k],
                    elf_data@.len() as int,
                ),
            max_addr == max_end(segments@.take(i as int)),
            forall|k: int|
                0 <= k < i ==> (#[trigger] segments@[k]).p_vaddr + segments@[k].p_memsz <= max_addr,
        decreases segments@.len() - i,
    {
        let p: Elf64Phdr = segments[i];
        assert(p == segments@[i as int]);
        assert(segments@.take(i + 1).drop_last() =~= segments@.take(i as int));
        if p.p_vaddr + p.p_memsz > max_addr {
            max_addr = p.p_vaddr + p.p_memsz;
        }
        i = i + 1;
    }
    assert(segments@.take(i as int) =~= segments@);
    Ok((ElfImage { entry: h.e_entry, max_addr }, segments))
}

/// The number of pages that a segment asks for.
pub fn segment_pages(p: &Elf64Phdr) -> (r: u64)
    requires
        p.p_vaddr + p.p_memsz <= USER_SPACE_END,
    ensures
        r == page_count(*p),
{
    (p.p_vaddr + p.p_memsz + 4095) / PAGE_SIZE - p.p_vaddr / PAGE_SIZE
}

/// What one page of a segment holds.
pub fn segment_page(p: &Elf64Phdr, index: u64) -> (r: PageLoad)
    requires
        p.p_vaddr + p.p_memsz <= USER_SPACE_END,
        p.p_offset + p.p_filesz <= u64::MAX,
        index < page_count(*p),
    ensures
        r == page_load(*p, index as int),
{
    let page: u64 = p.p_vaddr - p.p_vaddr % PAGE_SIZE + index * PAGE_SIZE;
    let low: u64 = if index == 0 {
        p.p_vaddr
    } else {
        page
    };
    let end: u64 = p.p_vaddr + p.p_memsz;
    let high: u64 = if end < page + PAGE_SIZE {
        end
    } else {
        page + PAGE_SIZE
    };
    let skipped: u64 = low - p.p_vaddr;
    let data_len: u64 = if p.p_filesz <= skipped {
        0
    } else if p.p_filesz - skipped < high - low {
        p.p_filesz - skipped
    } else {
        high - low
    };
    let mut flags: u64 = FLAG_PRESENT + FLAG_USER;
    if p.p_flags / 2 % 2 == 1 {
        flags = flags + FLAG_WRITABLE;
    }
    if p.p_flags % 2 == 0 {
        flags = flags + FLAG_NO_EXECUTE;
    }
    let src_offset: u64 = if data_len > 0 {
        p.p_offset + skipped
    } else {
        0
    };
    PageLoad {
        virt: page,
        flags,
        dst_offset: low - page,
        src_offset,
        data_len,
        bss_len: high - low - data_len,
    }
}

/// Takes a frame for one page of a segment and says what to put there.
pub fn load_page(pmm: &mut Pmm, p: &Elf64Phdr, index: u64) -> (r: Result<
    (PhysAddr, PageLoad),
    ElfError,
>)
    requires
        old(pmm).wf(),
        p.p_vaddr + p.p_memsz <= USER_SPACE_END,
        p.p_offset + p.p_filesz <= u64::MAX,
        index < page_count(*p),
    ensures
        final(pmm).wf(),
        final(pmm).total() == old(pmm).total(),
        final(pmm).excess() == old(pmm).excess(),
        match r {
            Ok((frame, load)) => {
                let i = frame.addr as int / 4096;
                &&& load == page_load(*p, index as int)
                &&& frame.addr % 4096 == 0
                &&& 0 < i < old(pmm).total()
                &&& !old(pmm).used()[i]
                &&& forall|k: int| 0 <= k < i ==> #[trigger] old(pmm).used()[k]
                &&& final(pmm).used() == old(pmm).used().update(i, true)
            },
            Err(e) => {
                &&& e == ElfError::MapFailed
                &&& forall|k: int| 0 <= k < old(pmm).total() ==> #[trigger] old(pmm).used()[k]
                &&& final(pmm).used() == old(pmm).used()
            },
        },
{
    match pmm::alloc_frame(pmm) {
        Some(frame) => Ok((frame, segment_page(p, index))),
        None => Err(ElfError::MapFailed),
    }
}

/// Validate an ELF binary without loading it: the entry point, and the memory that its
/// segments take.
pub fn validate_elf(elf_data: &[u8]) -> (r: Result<(u64, u64), ElfError>)
    ensures
        match (r, executable_of(elf_data@)) {
            (Ok((entry, total)), Ok((h, segments))) => entry == h.e_entry && total
                == total_memory(segments),
            (Err(e), Err(ee)) => e == ee,
            _ => false,
        },
{
    let (h, segments): (Elf64Ehdr, Vec<Elf64Phdr>) = match read_executable(elf_data) {
        Ok(x) => x,
        Err(e) => {
            return Err(e);
        },
    };
    let mut total: u64 = 0;
    let mut i: usize = 0;
    while i < segments.len()
        invariant
            i <= segments@.len() <= 0xFFFF,
            forall|k: int|
                0 <= k < segments@.len() ==> segment_ok(
                    #[trigger] segments@[k],
                    elf_data@.len() as int,
                ),
            total == total_memory(segments@.take(i as int)),
            total <= i * USER_SPACE_END,
        decreases segments@.len() - i,
    {
        let p: Elf64Phdr = segments[i];
        assert(p == segments@[i as int]);
        assert(segments@.take(i + 1).drop_last() =~= segments@.take(i as int));
        total = total + p.p_memsz;
        i = i + 1;
    }
    assert(segments@.take(i as int) =~= segments@);
    Ok((h.e_entry, total))
}

/// Validate the header alone, for a file of which only the start was read: the entry
/// point and the number of program headers.
pub fn validate_elf_header(elf_data: &[u8]) -> (r: Result<(u64, u16), ElfError>)
    ensures
        r == match ehdr_of(elf_data@) {
            Ok(h) => Ok::<(u64, u16), ElfError>((h.e_entry, h.e_phnum)),
            Err(e) => Err(e),
        },
{
    match parse_ehdr(elf_data) {
        Ok(h) => Ok((h.e_entry, h.e_phnum)),
        Err(e) => Err(e),
    }
}

/// Each byte of a loaded segment has its place: byte `k` lies in exactly one page of the
/// segment, at the virtual address `k` bytes into the segment. If the file holds the
/// byte it is copied from there, and otherwise it is zeroed.
pub proof fn law_segment_bytes(p: Elf64Phdr, file_len: int, k: int)
    requires
        segment_ok(p, file_len),
        file_len <= u64::MAX,
        0 <= k < p.p_memsz,
    ensures
        ({
            let index = (p.p_vaddr + k) / 4096 - p.p_vaddr as int / 4096;
            let load = page_load(p, index);
            let at = p.p_vaddr + k - load.virt;
            &&& 0 <= index < page_count(p)
            &&& 0 <= at < 4096
            &&& load.dst_offset <= at < load.dst_offset + load.data_len + load.bss_len
            &&& k < p.p_filesz ==> at < load.dst_offset + load.data_len && load.src_offset + (at
                - load.dst_offset) == p.p_offset + k
            &&& k >= p.p_filesz ==> at >= load.dst_offset + load.data_len
        }),
{
    let index = (p.p_vaddr + k) / 4096 - p.p_vaddr as int / 4096;
    assert(first_page(p) + index * 4096 == (p.p_vaddr + k) / 4096 * 4096);
}

/// No page of an executable that was accepted lies outside user space, and what a page
/// takes from the file is in the file.
pub proof fn law_pages_in_bounds(p: Elf64Phdr, file_len: int, index: int)
    requires
        segment_ok(p, file_len),
        file_len <= u64::MAX,
        0 <= index < page_count(p),
    ensures
        ({
            let load = page_load(p, index);
            &&& load.virt % 4096 == 0
            &&& load.virt + 4096 <= USER_SPACE_END
            &&& load.dst_offset + load.data_len + load.bss_len <= 4096
            &&& load.src_offset + load.data_len <= file_len
        }),
{
}

} // verus!
