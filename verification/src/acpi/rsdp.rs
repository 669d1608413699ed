//! The root pointer of the ACPI tables.
use vstd::prelude::*;

use crate::acpi;
use crate::bytes;

verus! {

/// The low memory that a scan may read.
pub const SCAN_MEMORY: usize = 0x10_001C;

/// "RSD PTR ", as a little-endian number.
pub const RSDP_SIGNATURE: u64 = 0x2052_5450_2044_5352;

/// Whether a valid root pointer stands at `at`: the signature, twenty bytes that add up
/// to zero and, from revision 2 on, 36 bytes that do.
pub open spec fn is_rsdp(memory: Seq<u8>, at: int) -> bool {
    &&& bytes::le64(memory, at) == RSDP_SIGNATURE
    &&& acpi::checksum_ok(memory, at, 20)
    &&& memory[at + 15] >= 2 ==> acpi::checksum_ok(memory, at, 36)
}

/// The first root pointer on an 8-byte boundary from `start` on, if it and its signature
/// lie below `end`.
pub open spec fn scan(memory: Seq<u8>, start: int, end: int) -> Option<u64>
    decreases end - start,
{
    if start + 8 > end {
        None
    } else if is_rsdp(memory, start) {
        Some(start as u64)
    } else {
        scan(memory, start + 8, end)
    }
}

/// The address of the extended BIOS data area.
pub open spec fn ebda(memory: Seq<u8>) -> int {
    bytes::le16(memory, 0x40E) * 16
}

/// What a scan of the extended BIOS data area finds.
pub open spec fn in_ebda(memory: Seq<u8>) -> Option<u64> {
    let e = ebda(memory);
    if 0x8000 <= e < 0xA0000 {
        scan(
            memory,
            e / 8 * 8,
            if e + 0x8000 < 0xA0000 {
                e + 0x8000
            } else {
                0xA0000
            },
        )
    } else {
        None
    }
}

pub open spec fn or_else(a: Option<u64>, b: Option<u64>) -> Option<u64> {
    match a {
        Some(x) => Some(x),
        None => b,
    }
}

/// The root pointer in low memory. The areas are tried in this order: the extended BIOS
/// data area, the BIOS area, the rest below it, and the remaining low memory.
pub open spec fn found(memory: Seq<u8>) -> Option<u64> {
    or_else(
        in_ebda(memory),
        or_else(
            scan(memory, 0xE0000, 0x100000),
            or_else(
                scan(memory, 0x80000, 0xA0000),
                or_else(
                    scan(memory, 0xA0000, 0xC0000),
                    or_else(scan(memory, 0x1000, 0x80000), scan(memory, 0xC0000, 0xE0000)),
                ),
            ),
        ),
    )
}

/// The addresses of the two root tables. Before revision 2 there is only the second.
pub open spec fn roots(memory: Seq<u8>, at: int) -> (u64, u64) {
    (
        if memory[at + 15] >= 2 {
            bytes::le64(memory, at + 24)
        } else {
            0
        },
        bytes::le32(memory, at + 16) as u64,
    )
}

/// Validate a root pointer by checking its checksums.
pub fn validate_rsdp(memory: &[u8], addr: u64) -> (r: bool)
    requires
        acpi::mapped(memory@, addr as int, 36),
    ensures
        r == (acpi::checksum_ok(memory@, addr as int, 20) && (memory@[addr + 15] >= 2
            ==> acpi::checksum_ok(memory@, addr as int, 36)) && signature_letters(
            memory@,
            addr as int,
        )),
{
    assert(addr + 36 <= memory.len());
    let at: usize = addr as usize;
    if !acpi::sums_to_zero(memory, at, 20) {
        return false;
    }
    if memory[at + 15] >= 2 && !acpi::sums_to_zero(memory, at, 36) {
        return false;
    }
    let mut i: usize = 0;
    while i < 8
        invariant
            i <= 8,
            at == addr,
            at + 36 <= memory@.len(),
            forall|k: int| 0 <= k < i ==> #[trigger] letter_at(memory@, at as int, k),
        decreases 8 - i,
    {
        assert(at + i < memory.len());
        let b: u8 = memory[at + i];
        if !(b >= 0x41 && b <= 0x5A) && b != 0x20 {
            assert(!letter_at(memory@, addr as int, i as int));
            return false;
        }
        i = i + 1;
    }
    true
}

pub open spec fn letter_at(memory: Seq<u8>, at: int, k: int) -> bool {
    0x41 <= memory[at + k] <= 0x5A || memory[at + k] == 0x20
}

/// Whether the signature consists of upper-case letters and spaces.
pub open spec fn signature_letters(memory: Seq<u8>, at: int) -> bool {
    forall|k: int| 0 <= k < 8 ==> #[trigger] letter_at(memory, at, k)
}

proof fn lemma_bytes(a: u8, b: u8, c: u8, d: u8, value: u32)
    requires
        value == a + 0x100 * b + 0x1_0000 * c + 0x100_0000 * d,
    ensures
        a == value % 0x100,
        b == value / 0x100 % 0x100,
        c == value / 0x1_0000 % 0x100,
        d == value / 0x100_0000,
{
}

proof fn lemma_halves(low: u32, high: u32)
    requires
        (low + 0x1_0000_0000 * high) as u64 == RSDP_SIGNATURE,
    ensures
        low == 0x2044_5352,
        high == 0x2052_5450,
{
}

proof fn lemma_letters(memory: Seq<u8>, at: int)
    requires
        memory[at] == 0x52,
        memory[at + 1] == 0x53,
        memory[at + 2] == 0x44,
        memory[at + 3] == 0x20,
        memory[at + 4] == 0x50,
        memory[at + 5] == 0x54,
        memory[at + 6] == 0x52,
        memory[at + 7] == 0x20,
    ensures
        signature_letters(memory, at),
{
    assert forall|k: int| 0 <= k < 8 implies #[trigger] letter_at(memory, at, k) by {
        assert(k == 0 || k == 1 || k == 2 || k == 3 || k == 4 || k == 5 || k == 6 || k == 7);
    }
}

proof fn lemma_signature(memory: Seq<u8>, at: int)
    requires
        bytes::le64(memory, at) == RSDP_SIGNATURE,
    ensures
        signature_letters(memory, at),
{
    let low = bytes::le32(memory, at);
    let high = bytes::le32(memory, at + 4);
    lemma_halves(low, high);
    lemma_bytes(memory[at], memory[at + 1], memory[at + 2], memory[at + 3], low);
    lemma_bytes(memory[at + 4], memory[at + 5], memory[at + 6], memory[at + 7], high);
    lemma_letters(memory, at);
}

/// Scan a physical memory range for a root pointer. It must be on an 8-byte boundary.
pub fn scan_range(memory: &[u8], start: u64, end: u64) -> (r: Option<u64>)
    requires
        end + 28 <= memory@.len(),
        end + 16 <= u64::MAX,
    ensures
        r == scan(memory@, start as int / 8 * 8, end as int),
{
    let mut addr: u64 = start / 8 * 8;
    if addr > end {
        return None;
    }
    while addr + 8 <= end
        invariant
            end + 28 <= memory@.len(),
            addr <= end + 8,
            end + 16 <= u64::MAX,
            scan(memory@, addr as int, end as int) == scan(
                memory@,
                start as int / 8 * 8,
                end as int,
            ),
        decreases end + 8 - addr,
    {
        assert(addr + 36 <= memory.len());
        let sig: u64 = bytes::read_u64(memory, addr as usize);
        if sig == RSDP_SIGNATURE {
            proof {
                lemma_signature(memory@, addr as int);
            }
            if validate_rsdp(memory, addr) {
                return Some(addr);
            }
        }
        addr = addr + 8;
    }
    None
}

/// The address of the extended BIOS data area, from its segment number at 0x40E.
pub fn get_ebda(memory: &[u8]) -> (r: u64)
    requires
        memory@.len() >= SCAN_MEMORY,
    ensures
        r == ebda(memory@),
{
    bytes::read_u16(memory, 0x40E) as u64 * 16
}

/// Find the root pointer by scanning memory.
pub fn find_rsdp(memory: &[u8]) -> (r: Option<u64>)
    requires
        memory@.len() >= SCAN_MEMORY,
    ensures
        r == found(memory@),
{
    let e: u64 = get_ebda(memory);
    if e >= 0x8000 && e < 0xA0000 {
        let end: u64 = if e + 0x8000 < 0xA0000 {
            e + 0x8000
        } else {
            0xA0000
        };
        let r: Option<u64> = scan_range(memory, e, end);
        if r.is_some() {
            return r;
        }
    }
    let r: Option<u64> = scan_range(memory, 0xE0000, 0x100000);
    if r.is_some() {
        return r;
    }
    let r: Option<u64> = scan_range(memory, 0x80000, 0xA0000);
    if r.is_some() {
        return r;
    }
    let r: Option<u64> = scan_range(memory, 0xA0000, 0xC0000);
    if r.is_some() {
        return r;
    }
    let r: Option<u64> = scan_range(memory, 0x1000, 0x80000);
    if r.is_some() {
        return r;
    }
    scan_range(memory, 0xC0000, 0xE0000)
}

/// Parse the root pointer to get the addresses of XSDT and RSDT.
pub fn parse_rsdp(memory: &[u8], rsdp_phys: u64) -> (r: (u64, u64))
    requires
        acpi::mapped(memory@, rsdp_phys as int, 36),
    ensures
        r == roots(memory@, rsdp_phys as int),
{
    assert(rsdp_phys + 36 <= memory.len());
    let at: usize = rsdp_phys as usize;
    let xsdt: u64 = if memory[at + 15] >= 2 {
        bytes::read_u64(memory, at + 24)
    } else {
        0
    };
    (xsdt, bytes::read_u32(memory, at + 16) as u64)
}

/// What a scan finds is a valid root pointer on an 8-byte boundary inside the range.
pub proof fn law_scan_sound(memory: Seq<u8>, start: int, end: int)
    requires
        0 <= start,
        start % 8 == 0,
        end <= u64::MAX,
    ensures
        scan(memory, start, end) matches Some(a) ==> is_rsdp(memory, a as int) && a % 8 == 0
            && start <= a && a + 8 <= end,
    decreases end - start,
{
    if start + 8 <= end && !is_rsdp(memory, start) {
        law_scan_sound(memory, start + 8, end);
    }
}

} // verus!
