//! ACPI tables, found in physical memory.
//!
//! `memory` is physical memory from address 0 on, as the identity map shows it.
use vstd::prelude::*;

use crate::acpi::madt::MadtInfo;
use crate::bytes;
use crate::serial;

pub mod madt;
pub mod rsdp;

verus! {

/// Size of the header that all tables share.
pub const TABLE_HEADER_SIZE: u64 = 36;

/// ACPI table header (common to all tables).
#[derive(Debug, Clone, Copy)]
pub struct AcpiTableHeader {
    pub signature: [u8; 4],
    pub length: u32,
    pub revision: u8,
    pub checksum: u8,
    pub oem_id: [u8; 6],
    pub oem_table_id: [u8; 8],
    pub oem_revision: u32,
    pub creator_id: u32,
    pub creator_revision: u32,
}

/// ACPI table reference (physical address and header).
#[derive(Debug, Clone, Copy)]
pub struct AcpiTable {
    pub phys_addr: u64,
    pub header: AcpiTableHeader,
}

/// What was found.
pub struct AcpiState {
    pub tables: Vec<AcpiTable>,
    pub rsdp_phys: u64,
    pub madt: Option<MadtInfo>,
}

/// Whether `len` bytes at `addr` are memory.
pub open spec fn mapped(memory: Seq<u8>, addr: int, len: int) -> bool {
    0 <= addr && addr + len <= memory.len()
}

/// Whether a header says what the memory at `at` holds.
pub open spec fn header_matches(h: AcpiTableHeader, memory: Seq<u8>, at: int) -> bool {
    &&& h.signature@ == memory.subrange(at, at + 4)
    &&& h.length == bytes::le32(memory, at + 4)
    &&& h.revision == memory[at + 8]
    &&& h.checksum == memory[at + 9]
    &&& h.oem_id@ == memory.subrange(at + 10, at + 16)
    &&& h.oem_table_id@ == memory.subrange(at + 16, at + 24)
    &&& h.oem_revision == bytes::le32(memory, at + 24)
    &&& h.creator_id == bytes::le32(memory, at + 28)
    &&& h.creator_revision == bytes::le32(memory, at + 32)
}

/// The sum of `n` bytes.
pub open spec fn byte_sum(memory: Seq<u8>, at: int, n: int) -> int
    decreases n,
{
    if n <= 0 {
        0
    } else {
        byte_sum(memory, at, n - 1) + memory[at + n - 1]
    }
}

/// Whether `n` bytes add up to zero in eight bits.
pub open spec fn checksum_ok(memory: Seq<u8>, at: int, n: int) -> bool {
    byte_sum(memory, at, n) % 256 == 0
}

/// Whether a byte can stand in a table's signature: an upper-case letter, a digit or a
/// space.
pub open spec fn signature_byte(b: u8) -> bool {
    0x41 <= b <= 0x5A || 0x30 <= b <= 0x39 || b == 0x20
}

/// Whether a valid table stands at `at`: a signature of four letters, a length that
/// covers the header, and bytes that add up to zero.
pub open spec fn table_valid(memory: Seq<u8>, at: int) -> bool {
    &&& signature_byte(memory[at])
    &&& signature_byte(memory[at + 1])
    &&& signature_byte(memory[at + 2])
    &&& signature_byte(memory[at + 3])
    &&& bytes::le32(memory, at + 4) >= 36
    &&& checksum_ok(memory, at, bytes::le32(memory, at + 4) as int)
}

/// Whether the memory that a table says it takes is there.
pub open spec fn table_mapped(memory: Seq<u8>, at: int) -> bool {
    mapped(memory, at, 36) && mapped(memory, at, bytes::le32(memory, at + 4) as int)
}

/// The number of entries of a root table whose entries have `width` bytes.
pub open spec fn entry_count(memory: Seq<u8>, at: int, width: int) -> int {
    let len = bytes::le32(memory, at + 4) as int;
    if len < 36 + width {
        0
    } else {
        (len - 36) / width
    }
}

/// The addresses among the first `n` entries of a root table that are not zero.
pub open spec fn addresses(memory: Seq<u8>, at: int, width: int, n: int) -> Seq<u64>
    decreases n,
{
    if n <= 0 {
        Seq::empty()
    } else {
        let rest = addresses(memory, at, width, n - 1);
        let a = if width == 8 {
            bytes::le64(memory, at + 36 + 8 * (n - 1))
        } else {
            bytes::le32(memory, at + 36 + 4 * (n - 1)) as u64
        };
        if a != 0 {
            rest.push(a)
        } else {
            rest
        }
    }
}

/// The tables that the root tables at the given addresses list. The one with 64-bit
/// entries comes first.
pub open spec fn listed(memory: Seq<u8>, xsdt: u64, rsdt: u64) -> Seq<u64> {
    if xsdt != 0 {
        addresses(memory, xsdt as int, 8, entry_count(memory, xsdt as int, 8))
    } else if rsdt != 0 {
        addresses(memory, rsdt as int, 4, entry_count(memory, rsdt as int, 4))
    } else {
        Seq::empty()
    }
}

/// The valid tables among the first `n` addresses.
pub open spec fn valid_tables(memory: Seq<u8>, addrs: Seq<u64>, n: int) -> Seq<u64>
    decreases n,
{
    if n <= 0 {
        Seq::empty()
    } else {
        let rest = valid_tables(memory, addrs, n - 1);
        if table_valid(memory, addrs[n - 1] as int) {
            rest.push(addrs[n - 1])
        } else {
            rest
        }
    }
}

/// Whether a table describes the interrupt controllers.
pub open spec fn is_madt(memory: Seq<u8>, at: int) -> bool {
    memory[at] == 0x4D && memory[at + 1] == 0x41 && memory[at + 2] == 0x44 && memory[at + 3] == 0x54
}

/// The first of the tables that describes the interrupt controllers.
pub open spec fn first_madt(memory: Seq<u8>, tables: Seq<u64>, n: int) -> Option<u64>
    decreases n,
{
    if n <= 0 {
        None
    } else {
        match first_madt(memory, tables, n - 1) {
            Some(a) => Some(a),
            None => if is_madt(memory, tables[n - 1] as int) {
                Some(tables[n - 1])
            } else {
                None
            },
        }
    }
}

/// The text of bytes that are valid UTF-8, or a placeholder.
pub open spec fn text_or(raw: Seq<u8>, placeholder: Seq<char>, shown: Seq<char>) -> bool {
    if vstd::utf8::valid_utf8(raw) {
        vstd::utf8::encode_utf8(shown) == raw
    } else {
        shown == placeholder
    }
}

impl AcpiTableHeader {
    pub fn signature_str(&self) -> (r: &str)
        ensures
            text_or(self.signature@, "????"@, r@),
    {
        match bytes::utf8_text(self.signature.as_slice()) {
            Some(s) => s,
            None => "????",
        }
    }

    pub fn oem_id_str(&self) -> (r: &str)
        ensures
            text_or(self.oem_id@, "??????"@, r@),
    {
        match bytes::utf8_text(self.oem_id.as_slice()) {
            Some(s) => s,
            None => "??????",
        }
    }
}

impl AcpiState {
    pub fn new() -> (r: AcpiState)
        ensures
            r.tables@.len() == 0,
            r.rsdp_phys == 0,
            r.madt is None,
    {
        AcpiState { tables: Vec::new(), rsdp_phys: 0, madt: None }
    }
}

/// Whether `n` bytes add up to zero in eight bits.
pub fn sums_to_zero(memory: &[u8], at: usize, n: usize) -> (r: bool)
    requires
        at + n <= memory@.len(),
    ensures
        r == checksum_ok(memory@, at as int, n as int),
{
    let mut sum: u8 = 0;
    let mut i: usize = 0;
    while i < n
        invariant
            i <= n,
            at + n <= memory@.len(),
            sum == byte_sum(memory@, at as int, i as int) % 256,
        decreases n - i,
    {
        assert(at + i < memory.len());
        sum = sum.wrapping_add(memory[at + i]);
        i = i + 1;
    }
    sum == 0
}

fn is_signature_byte(b: u8) -> (r: bool)
    ensures
        r == signature_byte(b),
{
    (b >= 0x41 && b <= 0x5A) || (b >= 0x30 && b <= 0x39) || b == 0x20
}

/// Read and validate an ACPI table.
pub fn read_table(memory: &[u8], phys_addr: u64) -> (r: Option<AcpiTable>)
    requires
        table_mapped(memory@, phys_addr as int),
    ensures
        match r {
            Some(t) => table_valid(memory@, phys_addr as int) && t.phys_addr == phys_addr
                && header_matches(t.header, memory@, phys_addr as int),
            None => !table_valid(memory@, phys_addr as int),
        },
{
    assert(phys_addr + 36 <= memory.len());
    let at: usize = phys_addr as usize;
    let m: &[u8] = memory;
    if !(is_signature_byte(m[at]) && is_signature_byte(m[at + 1]) && is_signature_byte(m[at + 2])
        && is_signature_byte(m[at + 3])) {
        return None;
    }
    let length: u32 = bytes::read_u32(m, at + 4);
    if length < 36 {
        return None;
    }
    if !sums_to_zero(m, at, length as usize) {
        return None;
    }
    let header: AcpiTableHeader = AcpiTableHeader {
        signature: [m[at], m[at + 1], m[at + 2], m[at + 3]],
        length,
        revision: m[at + 8],
        checksum: m[at + 9],
        oem_id: [m[at + 10], m[at + 11], m[at + 12], m[at + 13], m[at + 14], m[at + 15]],
        oem_table_id: [
            m[at + 16],
            m[at + 17],
            m[at + 18],
            m[at + 19],
            m[at + 20],
            m[at + 21],
            m[at + 22],
            m[at + 23],
        ],
        oem_revision: bytes::read_u32(m, at + 24),
        creator_id: bytes::read_u32(m, at + 28),
        creator_revision: bytes::read_u32(m, at + 32),
    };
    proof {
        assert(header.signature@ =~= m@.subrange(at as int, at + 4));
        assert(header.oem_id@ =~= m@.subrange(at + 10, at + 16));
        assert(header.oem_table_id@ =~= m@.subrange(at + 16, at + 24));
    }
    Some(AcpiTable { phys_addr, header })
}

/// Parse XSDT (64-bit table pointers).
pub fn parse_xsdt(memory: &[u8], xsdt_phys: u64) -> (r: Vec<u64>)
    requires
        table_mapped(memory@, xsdt_phys as int),
    ensures
        r@ == addresses(memory@, xsdt_phys as int, 8, entry_count(memory@, xsdt_phys as int, 8)),
{
    assert(xsdt_phys + 36 <= memory.len());
    let at: usize = xsdt_phys as usize;
    let total_len: u32 = bytes::read_u32(memory, at + 4);
    let mut addrs: Vec<u64> = Vec::new();
    if total_len < 44 {
        return addrs;
    }
    let n: usize = (total_len as usize - 36) / 8;
    let mut i: usize = 0;
    while i < n
        invariant
            i <= n,
            at + 36 + 8 * n <= memory@.len(),
            addrs@ == addresses(memory@, at as int, 8, i as int),
        decreases n - i,
    {
        assert(at + 36 + 8 * i + 8 <= memory.len());
        let addr: u64 = bytes::read_u64(memory, at + 36 + 8 * i);
        if addr != 0 {
            addrs.push(addr);
        }
        i = i + 1;
    }
    addrs
}

/// Parse RSDT (32-bit table pointers).
pub fn parse_rsdt(memory: &[u8], rsdt_phys: u64) -> (r: Vec<u64>)
    requires
        table_mapped(memory@, rsdt_phys as int),
    ensures
        r@ == addresses(memory@, rsdt_phys as int, 4, entry_count(memory@, rsdt_phys as int, 4)),
{
    assert(rsdt_phys + 36 <= memory.len());
    let at: usize = rsdt_phys as usize;
    let total_len: u32 = bytes::read_u32(memory, at + 4);
    let mut addrs: Vec<u64> = Vec::new();
    if total_len < 40 {
        return addrs;
    }
    let n: usize = (total_len as usize - 36) / 4;
    let mut i: usize = 0;
    while i < n
        invariant
            i <= n,
            at + 36 + 4 * n <= memory@.len(),
            addrs@ == addresses(memory@, at as int, 4, i as int),
        decreases n - i,
    {
        assert(at + 36 + 4 * i + 4 <= memory.len());
        let addr: u64 = bytes::read_u32(memory, at + 36 + 4 * i) as u64;
        if addr != 0 {
            addrs.push(addr);
        }
        i = i + 1;
    }
    addrs
}

/// Where the search for tables starts: the boot loader's address, unless it is absent or
/// zero, or else what a scan of low memory finds.
pub open spec fn root_pointer(memory: Seq<u8>, bootloader_rsdp: Option<u64>) -> Option<u64> {
    match bootloader_rsdp {
        Some(addr) => if addr != 0 {
            Some(addr)
        } else {
            rsdp::found(memory)
        },
        None => rsdp::found(memory),
    }
}

/// Whether all the memory that the search reads is there.
pub open spec fn search_mapped(memory: Seq<u8>, bootloader_rsdp: Option<u64>) -> bool {
    &&& (bootloader_rsdp is None || bootloader_rsdp == Some(0u64)) ==> memory.len()
        >= rsdp::SCAN_MEMORY
    &&& root_pointer(memory, bootloader_rsdp) matches Some(p) ==> {
        let (xsdt, rsdt) = rsdp::roots(memory, p as int);
        let addrs = listed(memory, xsdt, rsdt);
        let tables = valid_tables(memory, addrs, addrs.len() as int);
        &&& mapped(memory, p as int, 36)
        &&& xsdt != 0 ==> table_mapped(memory, xsdt as int)
        &&& xsdt == 0 && rsdt != 0 ==> table_mapped(memory, rsdt as int)
        &&& forall|i: int|
            0 <= i < addrs.len() ==> table_mapped(memory, #[trigger] addrs[i] as int)
        &&& first_madt(memory, tables, tables.len() as int) matches Some(a) ==> madt::madt_mapped(
            memory,
            a as int,
        )
    }
}

fn is_mapped(memory: &[u8], addr: u64, len: u64) -> (r: bool)
    ensures
        r == mapped(memory@, addr as int, len as int),
{
    let size: u64 = memory.len() as u64;
    len <= size && addr <= size - len
}

fn is_table_mapped(memory: &[u8], addr: u64) -> (r: bool)
    ensures
        r == table_mapped(memory@, addr as int),
{
    if !is_mapped(memory, addr, 36) {
        return false;
    }
    assert(addr + 36 <= memory.len());
    is_mapped(memory, addr, bytes::read_u32(memory, addr as usize + 4) as u64)
}

/// Checks whether all the memory that the search reads is there.
pub fn is_search_mapped(memory: &[u8], bootloader_rsdp: Option<u64>) -> (r: bool)
    ensures
        r == search_mapped(memory@, bootloader_rsdp),
{
    let from_boot: u64 = match bootloader_rsdp {
        Some(addr) => addr,
        None => 0,
    };
    let p: u64 = if from_boot != 0 {
        from_boot
    } else {
        if memory.len() < rsdp::SCAN_MEMORY {
            return false;
        }
        match rsdp::find_rsdp(memory) {
            Some(addr) => addr,
            None => {
                return true;
            },
        }
    };
    if !is_mapped(memory, p, 36) {
        return false;
    }
    let (xsdt, rsdt): (u64, u64) = rsdp::parse_rsdp(memory, p);
    let addrs: Vec<u64> = if xsdt != 0 {
        if !is_table_mapped(memory, xsdt) {
            return false;
        }
        parse_xsdt(memory, xsdt)
    } else if rsdt != 0 {
        if !is_table_mapped(memory, rsdt) {
            return false;
        }
        parse_rsdt(memory, rsdt)
    } else {
        Vec::new()
    };
    assert(addrs@ =~= listed(memory@, xsdt, rsdt));
    let mut i: usize = 0;
    let mut madt_at: Option<u64> = None;
    let ghost valid = valid_tables(memory@, addrs@, 0);
    while i < addrs.len()
        invariant
            i <= addrs@.len(),
            addrs@ == listed(memory@, xsdt, rsdt),
            (xsdt, rsdt) == rsdp::roots(memory@, p as int),
            root_pointer(memory@, bootloader_rsdp) == Some(p),
            forall|k: int| 0 <= k < i ==> table_mapped(memory@, #[trigger] addrs@[k] as int),
            valid == valid_tables(memory@, addrs@, i as int),
            madt_at == first_madt(memory@, valid, valid.len() as int),
        decreases addrs@.len() - i,
    {
        let addr: u64 = addrs[i];
        if !is_table_mapped(memory, addr) {
            assert(!table_mapped(memory@, addrs@[i as int] as int));
            return false;
        }
        let ghost before = valid;
        if read_table(memory, addr).is_some() {
            assert(addr + 36 <= memory.len());
            let at: usize = addr as usize;
            proof {
                valid = before.push(addr);
                lemma_first_madt_push(memory@, before, addr);
            }
            if madt_at.is_none() && memory[at] == 0x4D && memory[at + 1] == 0x41 && memory[at + 2]
                == 0x44 && memory[at + 3] == 0x54 {
                madt_at = Some(addr);
            }
        }
        i = i + 1;
    }
    match madt_at {
        Some(addr) => {
            if !is_mapped(memory, addr, 44) {
                return false;
            }
            assert(addr + 44 <= memory.len());
            is_mapped(memory, addr, bytes::read_u32(memory, addr as usize + 4) as u64)
        },
        None => true,
    }
}

/// Whether the search found what there is.
pub open spec fn state_matches(s: AcpiState, memory: Seq<u8>, p: u64) -> bool {
    let (xsdt, rsdt) = rsdp::roots(memory, p as int);
    let addrs = listed(memory, xsdt, rsdt);
    let tables = valid_tables(memory, addrs, addrs.len() as int);
    &&& s.rsdp_phys == p
    &&& s.tables@.len() == tables.len()
    &&& forall|i: int|
        0 <= i < tables.len() ==> (#[trigger] s.tables@[i]).phys_addr == tables[i]
            && header_matches(s.tables@[i].header, memory, tables[i] as int)
    &&& match first_madt(memory, tables, tables.len() as int) {
        Some(a) => s.madt matches Some(info) && info@ == madt::madt_of(memory, a as int),
        None => s.madt is None,
    }
}

/// The console once a table with this header has been found.
pub open spec fn with_header_text(out: Seq<u8>, signature: Seq<u8>, revision: u8, length: u32) -> Seq<
    u8,
> {
    let name = if vstd::utf8::valid_utf8(signature) {
        signature
    } else {
        serial::text("????"@)
    };
    out + serial::text("[ACPI]   "@) + name + serial::text(" (rev="@) + serial::hex_text(
        revision as u64,
    ) + serial::text(" len="@) + serial::hex_text(length as u64) + serial::line_end()
}

fn say_header(header: &AcpiTableHeader, out: &mut Vec<u8>)
    ensures
        final(out)@ == with_header_text(
            old(out)@,
            header.signature@,
            header.revision,
            header.length,
        ),
{
    serial::write_str(out, "[ACPI]   ");
    serial::write_str(out, header.signature_str());
    serial::write_str(out, " (rev=");
    serial::write_hex(out, header.revision as u64);
    serial::write_str(out, " len=");
    serial::write_hex(out, header.length as u64);
    serial::write_nl(out);
}

/// The console once the table at `at` has been found.
pub open spec fn with_table_text(out: Seq<u8>, memory: Seq<u8>, at: int) -> Seq<u8> {
    with_header_text(
        out,
        memory.subrange(at, at + 4),
        memory[at + 8],
        bytes::le32(memory, at + 4),
    )
}

/// The console once some tables have been found.
pub open spec fn with_tables_text(out: Seq<u8>, memory: Seq<u8>, tables: Seq<u64>) -> Seq<u8>
    decreases tables.len(),
{
    if tables.len() == 0 {
        out
    } else {
        with_table_text(
            with_tables_text(out, memory, tables.drop_last()),
            memory,
            tables.last() as int,
        )
    }
}

/// The console once the tables have been looked for.
pub open spec fn with_acpi_text(out: Seq<u8>, memory: Seq<u8>, bootloader_rsdp: Option<u64>) -> Seq<
    u8,
> {
    let asked = out + serial::text("[ACPI] Searching for RSDP...\n"@);
    let given = if bootloader_rsdp matches Some(a) && a != 0 {
        asked + serial::text("[ACPI] Using RSDP from bootloader\n"@)
    } else {
        asked
    };
    match root_pointer(memory, bootloader_rsdp) {
        None => given + serial::text("[ACPI] RSDP not found\n"@),
        Some(p) => {
            let (xsdt, rsdt) = rsdp::roots(memory, p as int);
            let addrs = listed(memory, xsdt, rsdt);
            let tables = valid_tables(memory, addrs, addrs.len() as int);
            let head = given + serial::text("[ACPI] RSDP at "@) + serial::hex_text(p)
                + serial::line_end() + serial::text("[ACPI] XSDT="@) + serial::hex_text(xsdt)
                + serial::text(" RSDT="@) + serial::hex_text(rsdt) + serial::line_end()
                + serial::text("[ACPI] Found "@) + serial::hex_text(addrs.len() as u64)
                + serial::text(" tables\n"@);
            let named = with_tables_text(head, memory, tables);
            match first_madt(memory, tables, tables.len() as int) {
                Some(a) => madt::with_madt_text(named, memory, a as int) + serial::text(
                    "[ACPI] MADT: local_apic="@,
                ) + serial::hex_text(madt::madt_of(memory, a as int).local_apic_addr)
                    + serial::text(" processors="@) + serial::hex_text(
                    madt::madt_of(memory, a as int).processors.len() as u64,
                ) + serial::line_end(),
                None => named,
            }
        },
    }
}

/// Find the tables, starting from the boot loader's root pointer or from a scan of
/// memory. `None` if there is no root pointer. What is found is noted on the console.
pub fn init(memory: &[u8], bootloader_rsdp: Option<u64>, out: &mut Vec<u8>) -> (r: Option<
    AcpiState,
>)
    requires
        search_mapped(memory@, bootloader_rsdp),
    ensures
        match root_pointer(memory@, bootloader_rsdp) {
            Some(p) => r matches Some(s) && state_matches(s, memory@, p),
            None => r is None,
        },
        final(out)@ == with_acpi_text(old(out)@, memory@, bootloader_rsdp),
{
    serial::write_str(out, "[ACPI] Searching for RSDP...\n");
    let from_boot: u64 = match bootloader_rsdp {
        Some(addr) => addr,
        None => 0,
    };
    let p: u64 = if from_boot != 0 {
        serial::write_str(out, "[ACPI] Using RSDP from bootloader\n");
        from_boot
    } else {
        match rsdp::find_rsdp(memory) {
            Some(addr) => addr,
            None => {
                serial::write_str(out, "[ACPI] RSDP not found\n");
                return None;
            },
        }
    };
    serial::write_str(out, "[ACPI] RSDP at ");
    serial::write_hex(out, p);
    serial::write_nl(out);
    let (xsdt, rsdt): (u64, u64) = rsdp::parse_rsdp(memory, p);
    serial::write_str(out, "[ACPI] XSDT=");
    serial::write_hex(out, xsdt);
    serial::write_str(out, " RSDT=");
    serial::write_hex(out, rsdt);
    serial::write_nl(out);
    let mut state: AcpiState = AcpiState::new();
    state.rsdp_phys = p;
    let addrs: Vec<u64> = if xsdt != 0 {
        parse_xsdt(memory, xsdt)
    } else if rsdt != 0 {
        parse_rsdt(memory, rsdt)
    } else {
        Vec::new()
    };
    assert(addrs@ =~= listed(memory@, xsdt, rsdt));
    serial::write_str(out, "[ACPI] Found ");
    serial::write_hex(out, addrs.len() as u64);
    serial::write_str(out, " tables\n");
    let ghost head = out@;
    let mut i: usize = 0;
    let mut madt_at: Option<u64> = None;
    let ghost valid = valid_tables(memory@, addrs@, 0);
    while i < addrs.len()
        invariant
            i <= addrs@.len(),
            forall|k: int|
                0 <= k < addrs@.len() ==> table_mapped(memory@, #[trigger] addrs@[k] as int),
            valid == valid_tables(memory@, addrs@, i as int),
            state.rsdp_phys == p,
            state.madt is None,
            state.tables@.len() == valid.len(),
            forall|k: int|
                0 <= k < valid.len() ==> (#[trigger] state.tables@[k]).phys_addr == valid[k]
                    && header_matches(state.tables@[k].header, memory@, valid[k] as int),
            out@ == with_tables_text(head, memory@, valid),
            madt_at == first_madt(memory@, valid, valid.len() as int),
        decreases addrs@.len() - i,
    {
        let addr: u64 = addrs[i];
        assert(table_mapped(memory@, addrs@[i as int] as int));
        let ghost before = valid;
        match read_table(memory, addr) {
            Some(table) => {
                say_header(&table.header, out);
                state.tables.push(table);
                assert(addr + 36 <= memory.len());
                let at: usize = addr as usize;
                proof {
                    valid = before.push(addr);
                    assert(valid.drop_last() =~= before);
                    lemma_first_madt_push(memory@, before, addr);
                }
                if madt_at.is_none() && memory[at] == 0x4D && memory[at + 1] == 0x41 && memory[at
                    + 2] == 0x44 && memory[at + 3] == 0x54 {
                    madt_at = Some(addr);
                }
            },
            None => {},
        }
        i = i + 1;
    }
    match madt_at {
        Some(addr) => {
            let info: MadtInfo = madt::parse_madt(memory, addr, out);
            serial::write_str(out, "[ACPI] MADT: local_apic=");
            serial::write_hex(out, info.local_apic_addr);
            serial::write_str(out, " processors=");
            serial::write_hex(out, info.processors.len() as u64);
            serial::write_nl(out);
            state.madt = Some(info);
        },
        None => {},
    }
    Some(state)
}

proof fn lemma_first_madt_push(memory: Seq<u8>, tables: Seq<u64>, addr: u64)
    ensures
        first_madt(memory, tables.push(addr), tables.len() as int) == first_madt(
            memory,
            tables,
            tables.len() as int,
        ),
{
    lemma_first_madt_prefix(memory, tables, tables.push(addr), tables.len() as int);
}

proof fn lemma_first_madt_prefix(memory: Seq<u8>, a: Seq<u64>, b: Seq<u64>, n: int)
    requires
        n <= a.len(),
        n <= b.len(),
        forall|k: int| 0 <= k < n ==> #[trigger] a[k] == b[k],
    ensures
        first_madt(memory, a, n) == first_madt(memory, b, n),
    decreases n,
{
    if n > 0 {
        lemma_first_madt_prefix(memory, a, b, n - 1);
    }
}

/// Get MADT info (CPU topology, APIC addresses), if ACPI was found and has it.
pub fn madt_info(state: &Option<AcpiState>) -> (r: Option<&MadtInfo>)
    ensures
        match r {
            Some(info) => state matches Some(s) && s.madt == Some(*info),
            None => state matches Some(s) ==> s.madt is None,
        },
{
    match state {
        Some(s) => match &s.madt {
            Some(info) => Some(info),
            None => None,
        },
        None => None,
    }
}

/// Get the ACPI state, once it was found.
pub fn acpi_state(state: &Option<AcpiState>) -> (r: &AcpiState)
    requires
        state is Some,
    ensures
        Some(*r) == *state,
{
    match state {
        Some(s) => s,
        None => vstd::pervasive::unreached(),
    }
}

/// The bytes of some addresses, each a 64-bit number with its low byte first.
pub open spec fn wide_entries(addrs: Seq<u64>) -> Seq<u8>
    decreases addrs.len(),
{
    if addrs.len() == 0 {
        Seq::empty()
    } else {
        wide_entries(addrs.drop_last()) + bytes::le64_bytes(addrs.last())
    }
}

/// The bytes of some addresses, each a 32-bit number with its low byte first.
pub open spec fn narrow_entries(addrs: Seq<u32>) -> Seq<u8>
    decreases addrs.len(),
{
    if addrs.len() == 0 {
        Seq::empty()
    } else {
        narrow_entries(addrs.drop_last()) + bytes::le32_bytes(addrs.last())
    }
}

/// A root table with 64-bit entries gives the addresses whose bytes its body is made of,
/// in order and without the zeros among them. The body is what stands behind the first 36
/// bytes, as far as the length at byte 4 goes.
#[verifier::rlimit(40)]
pub proof fn law_wide_root_table(memory: Seq<u8>, at: int, len: int, addrs: Seq<u64>)
    requires
        0 <= at,
        36 <= len,
        at + len <= memory.len(),
        bytes::has32(memory, at + 4, len),
        memory.subrange(at + 36, at + len) == wide_entries(addrs),
    ensures
        addresses(memory, at, 8, entry_count(memory, at, 8)) == addrs.filter(|a: u64| a != 0),
        (forall|i: int| 0 <= i < addrs.len() ==> #[trigger] addrs[i] != 0) ==> addresses(
            memory,
            at,
            8,
            entry_count(memory, at, 8),
        ) == addrs,
{
    lemma_wide_entries(addrs);
    bytes::law_little_endian(memory, at + 4, len);
    let body = memory.subrange(at + 36, at + len);
    assert(len - 36 == 8 * addrs.len());
    assert(entry_count(memory, at, 8) == addrs.len());
    lemma_wide_read(memory, at, addrs, addrs.len() as int);
    assert(addrs.take(addrs.len() as int) =~= addrs);
    if forall|i: int| 0 <= i < addrs.len() ==> #[trigger] addrs[i] != 0 {
        lemma_none_dropped(addrs);
    }
}

proof fn lemma_none_dropped(addrs: Seq<u64>)
    requires
        forall|i: int| 0 <= i < addrs.len() ==> #[trigger] addrs[i] != 0,
    ensures
        addrs.filter(|a: u64| a != 0) == addrs,
    decreases addrs.len(),
{
    reveal(Seq::filter);
    if addrs.len() > 0 {
        lemma_none_dropped(addrs.drop_last());
        assert(addrs.drop_last().push(addrs.last()) =~= addrs);
    }
}

/// The same for a root table with 32-bit entries.
pub proof fn law_narrow_root_table(memory: Seq<u8>, at: int, len: int, addrs: Seq<u32>)
    requires
        0 <= at,
        36 <= len,
        at + len <= memory.len(),
        bytes::has32(memory, at + 4, len),
        memory.subrange(at + 36, at + len) == narrow_entries(addrs),
    ensures
        addresses(memory, at, 4, entry_count(memory, at, 4)) == Seq::new(
            addrs.len(),
            |i: int| addrs[i] as u64,
        ).filter(|a: u64| a != 0),
{
    lemma_narrow_entries(addrs);
    bytes::law_little_endian(memory, at + 4, len);
    assert(len - 36 == 4 * addrs.len());
    assert(entry_count(memory, at, 4) == addrs.len());
    lemma_narrow_read(memory, at, addrs, addrs.len() as int);
}

proof fn lemma_wide_entries(addrs: Seq<u64>)
    ensures
        wide_entries(addrs).len() == 8 * addrs.len(),
        forall|i: int, j: int|
            0 <= i < addrs.len() && 0 <= j < 8 ==> #[trigger] wide_entries(addrs)[8 * i + j]
                == #[trigger] bytes::le64_bytes(addrs[i])[j],
    decreases addrs.len(),
{
    if addrs.len() > 0 {
        let front = addrs.drop_last();
        lemma_wide_entries(front);
        assert forall|i: int, j: int|
            0 <= i < addrs.len() && 0 <= j < 8 implies #[trigger] wide_entries(addrs)[8 * i + j]
            == #[trigger] bytes::le64_bytes(addrs[i])[j] by {
            if i < front.len() {
                assert(front[i] == addrs[i]);
                assert(wide_entries(front)[8 * i + j] == bytes::le64_bytes(front[i])[j]);
            } else {
                assert(addrs.last() == addrs[i]);
            }
        }
    }
}

proof fn lemma_narrow_entries(addrs: Seq<u32>)
    ensures
        narrow_entries(addrs).len() == 4 * addrs.len(),
        forall|i: int, j: int|
            0 <= i < addrs.len() && 0 <= j < 4 ==> #[trigger] narrow_entries(addrs)[4 * i + j]
                == #[trigger] bytes::le32_bytes(addrs[i])[j],
    decreases addrs.len(),
{
    if addrs.len() > 0 {
        let front = addrs.drop_last();
        lemma_narrow_entries(front);
        assert forall|i: int, j: int|
            0 <= i < addrs.len() && 0 <= j < 4 implies #[trigger] narrow_entries(addrs)[4 * i + j]
            == #[trigger] bytes::le32_bytes(addrs[i])[j] by {
            if i < front.len() {
                assert(front[i] == addrs[i]);
                assert(narrow_entries(front)[4 * i + j] == bytes::le32_bytes(front[i])[j]);
            } else {
                assert(addrs.last() == addrs[i]);
            }
        }
    }
}

#[verifier::rlimit(40)]
proof fn lemma_wide_read(memory: Seq<u8>, at: int, addrs: Seq<u64>, n: int)
    requires
        0 <= at,
        0 <= n <= addrs.len(),
        at + 36 + 8 * addrs.len() <= memory.len(),
        memory.subrange(at + 36, at + 36 + 8 * addrs.len()) == wide_entries(addrs),
    ensures
        addresses(memory, at, 8, n) == addrs.take(n).filter(|a: u64| a != 0),
    decreases n,
{
    reveal(Seq::filter);
    if n > 0 {
        assert(addrs.take(n).drop_last() =~= addrs.take(n - 1));
        assert(addrs.take(n).last() == addrs[n - 1]);
        lemma_wide_read(memory, at, addrs, n - 1);
        lemma_wide_entries(addrs);
        let v = addrs[n - 1];
        let body = memory.subrange(at + 36, at + 36 + 8 * addrs.len());
        assert forall|j: int| 0 <= j < 8 implies #[trigger] memory[at + 36 + 8 * (n - 1) + j]
            == bytes::le64_bytes(v)[j] by {
            assert(body[8 * (n - 1) + j] == bytes::le64_bytes(v)[j]);
        }
        let e = at + 36 + 8 * (n - 1);
        let lo = (v % 0x1_0000_0000) as u32;
        let hi = (v / 0x1_0000_0000) as u32;
        assert(memory[e + 0] == bytes::byte_of(lo, 0) && memory[e + 1] == bytes::byte_of(lo, 1)
            && memory[e + 2] == bytes::byte_of(lo, 2) && memory[e + 3] == bytes::byte_of(lo, 3));
        assert(memory[e + 4] == bytes::byte_of(hi, 0) && memory[e + 5] == bytes::byte_of(hi, 1)
            && memory[e + 6] == bytes::byte_of(hi, 2) && memory[e + 7] == bytes::byte_of(hi, 3));
        assert(bytes::has32(memory, e, lo as int));
        assert(bytes::has32(memory, e + 4, hi as int));
        bytes::law_little_endian(memory, e, v as int);
    }
}

#[verifier::rlimit(40)]
proof fn lemma_narrow_read(memory: Seq<u8>, at: int, addrs: Seq<u32>, n: int)
    requires
        0 <= at,
        0 <= n <= addrs.len(),
        at + 36 + 4 * addrs.len() <= memory.len(),
        memory.subrange(at + 36, at + 36 + 4 * addrs.len()) == narrow_entries(addrs),
    ensures
        addresses(memory, at, 4, n) == Seq::new(n as nat, |i: int| addrs[i] as u64).filter(
            |a: u64| a != 0,
        ),
    decreases n,
{
    reveal(Seq::filter);
    if n > 0 {
        let all = Seq::new(n as nat, |i: int| addrs[i] as u64);
        assert(all.drop_last() =~= Seq::new((n - 1) as nat, |i: int| addrs[i] as u64));
        assert(all.last() == addrs[n - 1] as u64);
        lemma_narrow_read(memory, at, addrs, n - 1);
        lemma_narrow_entries(addrs);
        let v = addrs[n - 1];
        let body = memory.subrange(at + 36, at + 36 + 4 * addrs.len());
        assert forall|j: int| 0 <= j < 4 implies #[trigger] memory[at + 36 + 4 * (n - 1) + j]
            == bytes::le32_bytes(v)[j] by {
            assert(body[4 * (n - 1) + j] == bytes::le32_bytes(v)[j]);
        }
        let e = at + 36 + 4 * (n - 1);
        assert(memory[e + 0] == bytes::byte_of(v, 0) && memory[e + 1] == bytes::byte_of(v, 1)
            && memory[e + 2] == bytes::byte_of(v, 2) && memory[e + 3] == bytes::byte_of(v, 3));
        bytes::law_little_endian(memory, e, v as int);
    }
}

} // verus!
