//! What the firmware's tables say, byte by byte.
use vstd::prelude::*;

use crate::acpi::madt::{
    before_records, madt_of, with_record, with_records, InterruptOverride, MadtView, NmiSource,
};
use crate::acpi::rsdp::{ebda, found, is_rsdp, or_else, roots, scan};
use crate::acpi::{
    addresses, byte_sum, checksum_ok, entry_count, first_madt, header_matches, listed, root_pointer,
    state_matches, table_valid, valid_tables, AcpiState, AcpiTableHeader,
};
use crate::bytes;
use crate::laws::select::{lemma_selects, picks_of, selects};

verus! {

/// The sum of some bytes is that of the first ones and that of the rest.
pub proof fn law_sums_add_up(memory: Seq<u8>, at: int, a: int, b: int)
    requires
        0 <= a,
        0 <= b,
    ensures
        byte_sum(memory, at, a + b) == byte_sum(memory, at, a) + byte_sum(memory, at + a, b),
        byte_sum(memory, at, 0) == 0,
        byte_sum(memory, at, 1) == memory[at],
    decreases b,
{
    reveal_with_fuel(byte_sum, 2);
    if b > 0 {
        law_sums_add_up(memory, at, a, b - 1);
    }
}

/// A checksum shows every change of a single byte.
pub proof fn law_checksum_detects(memory: Seq<u8>, at: int, n: int, i: int, b: u8)
    requires
        0 <= at,
        at + n <= memory.len(),
        0 <= i < n,
        checksum_ok(memory, at, n),
        b != memory[at + i],
    ensures
        !checksum_ok(memory.update(at + i, b), at, n),
{
    lemma_sum_changed(memory, at, n, i, b);
}

proof fn lemma_sum_changed(memory: Seq<u8>, at: int, n: int, i: int, b: u8)
    requires
        0 <= at,
        at + n <= memory.len(),
        at + i < memory.len(),
        0 <= i,
    ensures
        byte_sum(memory.update(at + i, b), at, n) == byte_sum(memory, at, n) + (if i < n {
            b - memory[at + i]
        } else {
            0
        }),
    decreases n,
{
    if n > 0 {
        lemma_sum_changed(memory, at, n - 1, i, b);
    }
}

/// A checksum can be set right by any one byte.
pub proof fn law_checksum_can_be_met(memory: Seq<u8>, at: int, n: int, i: int)
    requires
        0 <= at,
        at + n <= memory.len(),
        0 <= i < n,
    ensures
        exists|b: u8| checksum_ok(#[trigger] memory.update(at + i, b), at, n),
{
    let rest = byte_sum(memory, at, n) - memory[at + i];
    let b = ((-rest) % 256) as u8;
    lemma_sum_changed(memory, at, n, i, b);
    assert((rest + (-rest) % 256) % 256 == 0);
    assert(checksum_ok(memory.update(at + i, b), at, n));
}

/// A table is accepted exactly if its first four bytes are capital letters, digits or blanks,
/// it is at least as long as its header, and all its bytes add up to zero.
pub proof fn law_table_accepted(memory: Seq<u8>, at: int, len: int)
    requires
        bytes::has32(memory, at + 4, len),
    ensures
        table_valid(memory, at) <==> {
            &&& len >= 36
            &&& byte_sum(memory, at, len) % 256 == 0
            &&& forall|k: int|
                0 <= k < 4 ==> 65 <= #[trigger] memory[at + k] <= 90 || 48 <= memory[at + k] <= 57
                    || memory[at + k] == 32
        },
{
    bytes::law_little_endian(memory, at + 4, len);
    assert(memory[at + 0] == memory[at]);
}

/// The header of a table says: the signature in 4 bytes, the length, the revision and
/// the checksum at bytes 8 and 9, the names of the maker and of the table in 6 and 8 bytes
/// from byte 10 on, and three numbers from byte 24 on.
pub proof fn law_table_header(h: AcpiTableHeader, memory: Seq<u8>, at: int)
    requires
        0 <= at,
        at + 36 <= memory.len(),
        header_matches(h, memory, at),
    ensures
        forall|k: int| 0 <= k < 4 ==> #[trigger] h.signature@[k] == memory[at + k],
        bytes::has32(memory, at + 4, h.length as int),
        h.revision == memory[at + 8],
        h.checksum == memory[at + 9],
        forall|k: int| 0 <= k < 6 ==> #[trigger] h.oem_id@[k] == memory[at + 10 + k],
        forall|k: int| 0 <= k < 8 ==> #[trigger] h.oem_table_id@[k] == memory[at + 16 + k],
        bytes::has32(memory, at + 24, h.oem_revision as int),
        bytes::has32(memory, at + 28, h.creator_id as int),
        bytes::has32(memory, at + 32, h.creator_revision as int),
{
    bytes::law_read_is_there(memory, at + 4);
    bytes::law_read_is_there(memory, at + 24);
    bytes::law_read_is_there(memory, at + 28);
    bytes::law_read_is_there(memory, at + 32);
}

/// Whether some tables are those among the addresses with the numbers `picks`, and those are
/// the valid ones.
pub open spec fn are_valid(
    memory: Seq<u8>,
    addrs: Seq<u64>,
    tables: Seq<u64>,
    picks: Seq<int>,
) -> bool {
    &&& selects(picks, addrs.len() as int, |i: int| table_valid(memory, addrs[i] as int))
    &&& picks.len() == tables.len()
    &&& forall|k: int| 0 <= k < picks.len() ==> tables[k] == addrs[#[trigger] picks[k]]
}

/// The tables that are kept are the valid ones among those that are listed: all of them, in
/// the order of the list.
pub proof fn law_all_valid_tables(memory: Seq<u8>, addrs: Seq<u64>)
    ensures
        exists|picks: Seq<int>|
            #[trigger] are_valid(
                memory,
                addrs,
                valid_tables(memory, addrs, addrs.len() as int),
                picks,
            ),
{
    let n = addrs.len() as int;
    let wanted = |i: int| table_valid(memory, addrs[i] as int);
    lemma_selects(n, wanted);
    lemma_valid_tables(memory, addrs, n);
    assert(are_valid(memory, addrs, valid_tables(memory, addrs, n), picks_of(n, wanted)));
}

proof fn lemma_valid_tables(memory: Seq<u8>, addrs: Seq<u64>, n: int)
    ensures
        ({
            let picks = picks_of(n, |i: int| table_valid(memory, addrs[i] as int));
            let tables = valid_tables(memory, addrs, n);
            &&& picks.len() == tables.len()
            &&& forall|k: int| 0 <= k < picks.len() ==> tables[k] == addrs[#[trigger] picks[k]]
        }),
    decreases n,
{
    if n > 0 {
        lemma_valid_tables(memory, addrs, n - 1);
    }
}

/// Whether a table starts with the letters M, A, D and T, which mark that of the interrupt
/// controllers.
pub open spec fn is_marked_madt(memory: Seq<u8>, at: int) -> bool {
    memory[at] == 77 && memory[at + 1] == 65 && memory[at + 2] == 68 && memory[at + 3] == 84
}

/// The table of the interrupt controllers is the first that is marked as such.
pub proof fn law_first_madt(memory: Seq<u8>, tables: Seq<u64>)
    ensures
        match first_madt(memory, tables, tables.len() as int) {
            Some(a) => exists|i: int|
                0 <= i < tables.len() && #[trigger] tables[i] == a && is_marked_madt(
                    memory,
                    a as int,
                ) && forall|j: int|
                    0 <= j < i ==> !is_marked_madt(memory, #[trigger] tables[j] as int),
            None => forall|j: int|
                0 <= j < tables.len() ==> !is_marked_madt(memory, #[trigger] tables[j] as int),
        },
{
    lemma_first_madt(memory, tables, tables.len() as int);
}

proof fn lemma_first_madt(memory: Seq<u8>, tables: Seq<u64>, n: int)
    requires
        0 <= n <= tables.len(),
    ensures
        match first_madt(memory, tables, n) {
            Some(a) => exists|i: int|
                0 <= i < n && #[trigger] tables[i] == a && is_marked_madt(memory, a as int)
                    && forall|j: int|
                    0 <= j < i ==> !is_marked_madt(memory, #[trigger] tables[j] as int),
            None => forall|j: int|
                0 <= j < n ==> !is_marked_madt(memory, #[trigger] tables[j] as int),
        },
    decreases n,
{
    if n > 0 {
        lemma_first_madt(memory, tables, n - 1);
        if first_madt(memory, tables, n - 1) is None {
            assert(tables[n - 1] == tables[n - 1]);
        }
    }
}

/// The root table with 64-bit entries is taken if there is one, and otherwise the one with
/// 32-bit entries. No address in a list is 0.
pub proof fn law_wide_table_first(memory: Seq<u8>, xsdt: u64, rsdt: u64, i: int)
    ensures
        xsdt != 0 ==> listed(memory, xsdt, rsdt) == addresses(
            memory,
            xsdt as int,
            8,
            entry_count(memory, xsdt as int, 8),
        ),
        xsdt == 0 && rsdt != 0 ==> listed(memory, xsdt, rsdt) == addresses(
            memory,
            rsdt as int,
            4,
            entry_count(memory, rsdt as int, 4),
        ),
        xsdt == 0 && rsdt == 0 ==> listed(memory, xsdt, rsdt).len() == 0,
        0 <= i < listed(memory, xsdt, rsdt).len() ==> listed(memory, xsdt, rsdt)[i] != 0,
{
    if xsdt != 0 {
        lemma_no_zero(memory, xsdt as int, 8, entry_count(memory, xsdt as int, 8));
    } else {
        lemma_no_zero(memory, rsdt as int, 4, entry_count(memory, rsdt as int, 4));
    }
}

proof fn lemma_no_zero(memory: Seq<u8>, at: int, width: int, n: int)
    ensures
        forall|i: int|
            0 <= i < addresses(memory, at, width, n).len() ==> #[trigger] addresses(
                memory,
                at,
                width,
                n,
            )[i] != 0,
    decreases n,
{
    if n > 0 {
        lemma_no_zero(memory, at, width, n - 1);
        let rest = addresses(memory, at, width, n - 1);
        assert forall|i: int| 0 <= i < addresses(memory, at, width, n).len() implies #[trigger] addresses(
            memory,
            at,
            width,
            n,
        )[i] != 0 by {
            if i < rest.len() {
                assert(rest[i] != 0);
            }
        }
    }
}

/// Whether the eight bytes "RSD PTR " stand at `at`.
pub open spec fn has_rsdp_mark(memory: Seq<u8>, at: int) -> bool {
    &&& memory[at] == 82
    &&& memory[at + 1] == 83
    &&& memory[at + 2] == 68
    &&& memory[at + 3] == 32
    &&& memory[at + 4] == 80
    &&& memory[at + 5] == 84
    &&& memory[at + 6] == 82
    &&& memory[at + 7] == 32
}

/// A root pointer is marked by the bytes "RSD PTR ", its first 20 bytes add up to zero, and,
/// if its revision, at byte 15, is at least 2, its first 36 bytes do.
#[verifier::rlimit(40)]
pub proof fn law_root_pointer(memory: Seq<u8>, at: int)
    requires
        0 <= at,
        at + 36 <= memory.len(),
    ensures
        is_rsdp(memory, at) <==> {
            &&& has_rsdp_mark(memory, at)
            &&& byte_sum(memory, at, 20) % 256 == 0
            &&& memory[at + 15] >= 2 ==> byte_sum(memory, at, 36) % 256 == 0
        },
{
    let v = 0x2052_5450_2044_5352int;
    if has_rsdp_mark(memory, at) {
        assert(bytes::has64(memory, at, v));
        bytes::law_little_endian(memory, at, v);
    }
    if bytes::le64(memory, at) == v {
        bytes::law_read_is_there(memory, at);
    }
}

/// The addresses of the root tables are at bytes 24 (64 bits) and 16 (32 bits); the first is
/// there only from revision 2 on.
pub proof fn law_root_addresses(memory: Seq<u8>, at: int, wide: int, narrow: int)
    requires
        bytes::has64(memory, at + 24, wide),
        bytes::has32(memory, at + 16, narrow),
    ensures
        memory[at + 15] >= 2 ==> roots(memory, at).0 == wide,
        memory[at + 15] < 2 ==> roots(memory, at).0 == 0,
        roots(memory, at).1 == narrow,
{
    bytes::law_little_endian(memory, at + 24, wide);
    bytes::law_little_endian(memory, at + 16, narrow);
}

/// A scan finds the first root pointer on an 8-byte boundary of its range; if it finds none,
/// there is none.
pub proof fn law_scan_finds_first(memory: Seq<u8>, start: int, end: int)
    requires
        0 <= start,
        start % 8 == 0,
        end <= u64::MAX,
    ensures
        match scan(memory, start, end) {
            Some(a) => is_rsdp(memory, a as int) && a % 8 == 0 && start <= a && a + 8 <= end
                && none_between(memory, start, a as int),
            None => none_between(memory, start, end - 7),
        },
    decreases end - start,
{
    if start + 8 <= end && !is_rsdp(memory, start) {
        law_scan_finds_first(memory, start + 8, end);
        let to = match scan(memory, start + 8, end) {
            Some(a) => a as int,
            None => end - 7,
        };
        lemma_none_between(memory, start, to);
    }
}

/// Whether there is no root pointer on an 8-byte boundary from `low` to below `high`.
pub open spec fn none_between(memory: Seq<u8>, low: int, high: int) -> bool {
    forall|b: int| low <= b < high && b % 8 == 0 ==> !#[trigger] is_rsdp(memory, b)
}

proof fn lemma_none_between(memory: Seq<u8>, start: int, to: int)
    requires
        start % 8 == 0,
        !is_rsdp(memory, start),
        none_between(memory, start + 8, to),
    ensures
        none_between(memory, start, to),
{
    assert forall|b: int| start <= b < to && b % 8 == 0 implies !#[trigger] is_rsdp(memory, b) by {
        if b != start {
            assert(b >= start + 8);
        }
    }
}

/// Whether a root pointer stands at `b`.
#[verifier::opaque]
spec fn stands_at(memory: Seq<u8>, b: int) -> bool {
    is_rsdp(memory, b)
}

/// What a scan finds.
#[verifier::opaque]
spec fn scanned(memory: Seq<u8>, start: int, end: int) -> Option<u64> {
    scan(memory, start, end)
}

proof fn lemma_scan(memory: Seq<u8>, start: int, end: int, b: int)
    requires
        0 <= start,
        start % 8 == 0,
        end <= u64::MAX,
        b % 8 == 0,
    ensures
        ({
            let here = start <= b && b + 8 <= end && stands_at(memory, b);
            match scanned(memory, start, end) {
                Some(a) => {
                    &&& stands_at(memory, a as int)
                    &&& a % 8 == 0
                    &&& start <= a
                    &&& a + 8 <= end
                    &&& here ==> a <= b
                },
                None => !here,
            }
        }),
{
    reveal(stands_at);
    reveal(scanned);
    law_scan_finds_first(memory, start, end);
}

/// Where the part of the extended BIOS data area that is looked at ends.
pub open spec fn area_end(e: int) -> int {
    if e + 0x8000 < 0xA0000 {
        e + 0x8000
    } else {
        0xA0000
    }
}

/// The place of an address in the order in which the areas of low memory are tried, if the
/// extended BIOS data area is at `e`: that area first, if it starts from 0x8000 to below
/// 0xA0000, then the BIOS area, then the rest, from 0x80000, 0xA0000, 0x1000 and 0xC0000 on.
pub open spec fn area_rank(e: int, b: int) -> int {
    if 0x8000 <= e < 0xA0000 && e <= b && b + 8 <= area_end(e) {
        0
    } else if 0xE0000 <= b && b + 8 <= 0x100000 {
        1
    } else if 0x80000 <= b && b + 8 <= 0xA0000 {
        2
    } else if 0xA0000 <= b && b + 8 <= 0xC0000 {
        3
    } else if 0x1000 <= b && b + 8 <= 0x80000 {
        4
    } else if 0xC0000 <= b && b + 8 <= 0xE0000 {
        5
    } else {
        6
    }
}

/// What is found if the extended BIOS data area is at `e`.
#[verifier::opaque]
spec fn found_with(memory: Seq<u8>, e: int) -> Option<u64> {
    or_else(
        if 0x8000 <= e < 0xA0000 {
            scanned(memory, e / 8 * 8, area_end(e))
        } else {
            None
        },
        or_else(
            scanned(memory, 0xE0000, 0x100000),
            or_else(
                scanned(memory, 0x80000, 0xA0000),
                or_else(
                    scanned(memory, 0xA0000, 0xC0000),
                    or_else(
                        scanned(memory, 0x1000, 0x80000),
                        scanned(memory, 0xC0000, 0xE0000),
                    ),
                ),
            ),
        ),
    )
}

proof fn lemma_found_with(memory: Seq<u8>)
    ensures
        found(memory) == found_with(memory, ebda(memory)),
{
    reveal(scanned);
    reveal(found_with);
}

#[verifier::rlimit(40)]
proof fn lemma_areas(memory: Seq<u8>, e: int, b: int)
    requires
        b % 8 == 0,
        0 <= e,
        e % 16 == 0,
        e <= 0xF_FFF0,
    ensures
        ({
            match found_with(memory, e) {
                Some(a) => {
                    &&& stands_at(memory, a as int)
                    &&& a % 8 == 0
                    &&& area_rank(e, a as int) < 6
                    &&& stands_at(memory, b) && area_rank(e, b) < 6 ==> area_rank(e, a as int)
                        < area_rank(e, b) || area_rank(e, a as int) == area_rank(e, b) && a <= b
                },
                None => area_rank(e, b) < 6 ==> !stands_at(memory, b),
            }
        }),
{
    reveal(found_with);
    assert(e / 8 * 8 == e);
    lemma_scan(memory, e, area_end(e), b);
    lemma_scan(memory, 0xE0000, 0x100000, b);
    lemma_scan(memory, 0x80000, 0xA0000, b);
    lemma_scan(memory, 0xA0000, 0xC0000, b);
    lemma_scan(memory, 0x1000, 0x80000, b);
    lemma_scan(memory, 0xC0000, 0xE0000, b);
}

/// What is found in low memory is the first root pointer on an 8-byte boundary, in the order
/// in which the areas are tried and from the lowest address of an area up. If nothing is
/// found, there is none in these areas. The segment of the extended BIOS data area is at
/// 0x40E.
pub proof fn law_root_pointer_found(memory: Seq<u8>, segment: int, b: int)
    requires
        bytes::has16(memory, 0x40E, segment),
        b % 8 == 0,
    ensures
        ({
            let e = segment * 16;
            match found(memory) {
                Some(a) => {
                    &&& is_rsdp(memory, a as int)
                    &&& a % 8 == 0
                    &&& area_rank(e, a as int) < 6
                    &&& is_rsdp(memory, b) && area_rank(e, b) < 6 ==> area_rank(e, a as int)
                        < area_rank(e, b) || area_rank(e, a as int) == area_rank(e, b) && a <= b
                },
                None => area_rank(e, b) < 6 ==> !is_rsdp(memory, b),
            }
        }),
{
    bytes::law_little_endian(memory, 0x40E, segment);
    lemma_found_with(memory);
    lemma_areas(memory, segment * 16, b);
    reveal(stands_at);
}

/// A record for a processor that is enabled adds its identifier, and one for a processor that
/// is not adds nothing.
pub proof fn law_processor_record(v: MadtView, memory: Seq<u8>, at: int, flags: int)
    requires
        memory[at] == 0,
        memory[at + 1] >= 8,
        bytes::has32(memory, at + 4, flags),
    ensures
        with_record(v, memory, at) == if flags % 2 == 1 {
            MadtView { processors: v.processors.push(memory[at + 3]), ..v }
        } else {
            v
        },
{
    bytes::law_little_endian(memory, at + 4, flags);
}

/// A record for an I/O APIC sets its address and the first of its interrupts.
pub proof fn law_io_apic_record(v: MadtView, memory: Seq<u8>, at: int, addr: u32, base: u32)
    requires
        memory[at] == 1,
        memory[at + 1] >= 12,
        bytes::has32(memory, at + 4, addr as int),
        bytes::has32(memory, at + 8, base as int),
    ensures
        with_record(v, memory, at) == (MadtView {
            io_apic_addr: addr as u64,
            io_apic_gsi_base: base,
            ..v
        }),
{
    bytes::law_little_endian(memory, at + 4, addr as int);
    bytes::law_little_endian(memory, at + 8, base as int);
}

/// A record for an override says the bus, the interrupt there, the one it arrives as, and
/// in two pairs of bits the polarity and the trigger mode.
#[verifier::rlimit(40)]
pub proof fn law_override_record(v: MadtView, memory: Seq<u8>, at: int, o: InterruptOverride, rest: int)
    requires
        memory[at] == 2,
        memory[at + 1] >= 10,
        memory[at + 2] == o.bus,
        memory[at + 3] == o.source,
        bytes::has32(memory, at + 4, o.global as int),
        bytes::has16(memory, at + 8, o.polarity + 4 * o.trigger + 16 * rest),
        0 <= o.polarity < 4,
        0 <= o.trigger < 4,
        0 <= rest,
    ensures
        with_record(v, memory, at) == (MadtView { overrides: v.overrides.push(o), ..v }),
{
    bytes::law_little_endian(memory, at + 4, o.global as int);
    bytes::law_little_endian(memory, at + 8, o.polarity + 4 * o.trigger + 16 * rest);
}

/// A record for a source of non-maskable interrupts adds its processor, and the pin if it
/// says one.
pub proof fn law_nmi_record(v: MadtView, memory: Seq<u8>, at: int)
    requires
        memory[at] == 3 || memory[at] == 4,
        memory[at + 1] >= 6,
    ensures
        with_record(v, memory, at) == (MadtView {
            nmis: v.nmis.push(
                NmiSource {
                    processor: memory[at + 2],
                    pin: if memory[at] == 4 {
                        memory[at + 5]
                    } else {
                        255
                    },
                    polarity: 0,
                    trigger: 0,
                },
            ),
            ..v
        }),
{
}

/// A record may give the address of the local APIC in 64 bits.
pub proof fn law_local_apic_record(v: MadtView, memory: Seq<u8>, at: int, addr: u64)
    requires
        memory[at] == 5,
        memory[at + 1] >= 12,
        bytes::has64(memory, at + 4, addr as int),
    ensures
        with_record(v, memory, at) == (MadtView { local_apic_addr: addr, ..v }),
{
    bytes::law_little_endian(memory, at + 4, addr as int);
}

/// Other records, and those that are too short for what they are to say, add nothing.
pub proof fn law_other_record(v: MadtView, memory: Seq<u8>, at: int)
    ensures
        memory[at] > 5 ==> with_record(v, memory, at) == v,
        memory[at + 1] < 6 ==> with_record(v, memory, at) == v,
        memory[at] == 0 && memory[at + 1] < 8 ==> with_record(v, memory, at) == v,
        memory[at] == 1 && memory[at + 1] < 12 ==> with_record(v, memory, at) == v,
        memory[at] == 2 && memory[at + 1] < 10 ==> with_record(v, memory, at) == v,
        memory[at] == 5 && memory[at + 1] < 12 ==> with_record(v, memory, at) == v,
{
}

/// Whether the records of a table start at the given places and fill it: each is as long
/// as its second byte says.
pub open spec fn records_at(memory: Seq<u8>, from: int, end: int, starts: Seq<int>) -> bool {
    &&& starts.len() == 0 ==> from == end
    &&& starts.len() > 0 ==> starts[0] == from && starts.last() + memory[starts.last() + 1] == end
    &&& forall|k: int| 0 <= k < starts.len() ==> memory[#[trigger] starts[k] + 1] >= 2
    &&& forall|k: int|
        0 < k < starts.len() ==> #[trigger] starts[k] == starts[k - 1] + memory[starts[k - 1] + 1]
}

/// All the records of a table are read, one behind the other.
#[verifier::rlimit(40)]
pub proof fn law_records_in_order(v: MadtView, memory: Seq<u8>, from: int, end: int, starts: Seq<int>)
    requires
        records_at(memory, from, end, starts),
    ensures
        with_records(v, memory, from, end) == starts.fold_left(
            v,
            |w: MadtView, at: int| with_record(w, memory, at),
        ),
    decreases starts.len(),
{
    let f = |w: MadtView, at: int| with_record(w, memory, at);
    if starts.len() > 0 {
        let rest = starts.skip(1);
        let next = from + memory[from + 1];
        assert(forall|k: int| 0 <= k < rest.len() ==> #[trigger] rest[k] == starts[k + 1]);
        lemma_records_forward(memory, from, end, starts, 0);
        assert forall|k: int| 0 < k < rest.len() implies #[trigger] rest[k] == rest[k - 1]
            + memory[rest[k - 1] + 1] by {
            assert(starts[k + 1] == starts[k] + memory[starts[k] + 1]);
        }
        if rest.len() > 0 {
            assert(starts[1] == starts[0] + memory[starts[0] + 1]);
            assert(rest.last() == starts.last());
        }
        law_records_in_order(with_record(v, memory, from), memory, next, end, rest);
        assert(starts.subrange(0, 1) =~= seq![from]);
        starts.lemma_fold_left_split(v, f, 1);
        assert(starts.subrange(1, starts.len() as int) =~= rest);
        lemma_fold_one(v, f, from);
    } else {
        lemma_fold_none(v, f, starts);
    }
}

proof fn lemma_fold_one(v: MadtView, f: spec_fn(MadtView, int) -> MadtView, at: int)
    ensures
        seq![at].fold_left(v, f) == f(v, at),
{
    reveal_with_fuel(Seq::fold_left, 2);
    assert(seq![at].drop_last() =~= Seq::empty());
}

proof fn lemma_fold_none(v: MadtView, f: spec_fn(MadtView, int) -> MadtView, starts: Seq<int>)
    requires
        starts.len() == 0,
    ensures
        starts.fold_left(v, f) == v,
{
    reveal_with_fuel(Seq::fold_left, 1);
}

proof fn lemma_records_forward(memory: Seq<u8>, from: int, end: int, starts: Seq<int>, k: int)
    requires
        records_at(memory, from, end, starts),
        0 <= k < starts.len(),
    ensures
        starts[k] + memory[starts[k] + 1] <= end,
    decreases starts.len() - k,
{
    if k + 1 < starts.len() {
        assert(starts[k + 1] == starts[k] + memory[starts[k] + 1]);
        lemma_records_forward(memory, from, end, starts, k + 1);
    }
}

/// The records of the table of the interrupt controllers start at byte 44 and go to its
/// end. The address of the local APIC, at byte 36, is 0xFEE00000 if it is left out.
pub proof fn law_madt_read(memory: Seq<u8>, at: int, len: int, local: int)
    requires
        bytes::has32(memory, at + 4, len),
        bytes::has32(memory, at + 36, local),
    ensures
        ({
            let before = before_records(memory, at);
            &&& before.local_apic_addr == if local == 0 {
                0xFEE0_0000
            } else {
                local
            }
            &&& before.io_apic_addr == 0
            &&& before.processors.len() == 0
            &&& before.overrides.len() == 0
            &&& before.nmis.len() == 0
            &&& madt_of(memory, at) == with_records(before, memory, at + 44, at + len)
        }),
{
    bytes::law_little_endian(memory, at + 4, len);
    bytes::law_little_endian(memory, at + 36, local);
}

/// The boot loader's address of the root pointer is taken if there is one and it is not 0;
/// otherwise it is what a scan finds.
pub proof fn law_root_pointer_taken(memory: Seq<u8>, addr: u64)
    requires
        addr != 0,
    ensures
        root_pointer(memory, Some(addr)) == Some(addr),
        root_pointer(memory, Some(0)) == found(memory),
        root_pointer(memory, None) == found(memory),
{
}

/// The search ends with every valid table that the root table lists, each under its own
/// address.
pub proof fn law_tables_found(s: AcpiState, memory: Seq<u8>, p: u64, i: int)
    requires
        state_matches(s, memory, p),
    ensures
        ({
            let (xsdt, rsdt) = roots(memory, p as int);
            let addrs = listed(memory, xsdt, rsdt);
            &&& s.rsdp_phys == p
            &&& 0 <= i < addrs.len() && table_valid(memory, addrs[i] as int) ==> exists|k: int|
                0 <= k < s.tables@.len() && (#[trigger] s.tables@[k]).phys_addr == addrs[i]
            &&& 0 <= i < s.tables@.len() ==> addrs.contains(s.tables@[i].phys_addr) && table_valid(
                memory,
                s.tables@[i].phys_addr as int,
            ) && header_matches(s.tables@[i].header, memory, s.tables@[i].phys_addr as int)
        }),
{
    let (xsdt, rsdt) = roots(memory, p as int);
    let addrs = listed(memory, xsdt, rsdt);
    let tables = valid_tables(memory, addrs, addrs.len() as int);
    law_all_valid_tables(memory, addrs);
    let picks = choose|picks: Seq<int>| #[trigger] are_valid(memory, addrs, tables, picks);
    let wanted = |j: int| table_valid(memory, addrs[j] as int);
    if 0 <= i < addrs.len() && table_valid(memory, addrs[i] as int) {
        assert(wanted(i));
        let k = picks.index_of(i);
        assert(picks[k] == i);
        assert(tables[k] == addrs[i]);
        assert(s.tables@[k].phys_addr == tables[k]);
    }
    if 0 <= i < s.tables@.len() {
        assert(s.tables@[i].phys_addr == tables[i]);
        assert(tables[i] == addrs[picks[i]]);
        assert(wanted(picks[i]));
    }
}

} // verus!
