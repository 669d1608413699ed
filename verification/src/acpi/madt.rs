//! MADT (Multiple APIC Description Table) parser.
//!
//! The table describes the interrupt controllers: the addresses of the local and the I/O
//! APIC, interrupt source overrides, NMI sources, and which CPUs are present.
use vstd::prelude::*;

use crate::acpi;
use crate::bytes;
use crate::serial;

verus! {

/// Interrupt source override.
#[derive(Debug, Clone, Copy, PartialEq, Eq, Structural)]
pub struct InterruptOverride {
    /// 0 is ISA.
    pub bus: u8,
    /// Bus-relative interrupt number.
    pub source: u8,
    /// Global system interrupt number.
    pub global: u32,
    /// 0 conforms, 1 active-high, 3 active-low.
    pub polarity: u8,
    /// 0 conforms, 1 edge, 3 level.
    pub trigger: u8,
}

/// NMI source.
#[derive(Debug, Clone, Copy, PartialEq, Eq, Structural)]
pub struct NmiSource {
    /// 0xFF is all processors.
    pub processor: u8,
    /// LINT pin (0 or 1).
    pub pin: u8,
    pub polarity: u8,
    pub trigger: u8,
}

/// Information extracted from the MADT.
pub struct MadtInfo {
    /// Physical address of the Local APIC registers.
    pub local_apic_addr: u64,
    /// Physical address of the I/O APIC registers, or 0.
    pub io_apic_addr: u64,
    /// I/O APIC global interrupt base.
    pub io_apic_gsi_base: u32,
    /// List of active processor IDs.
    pub processors: Vec<u8>,
    /// Interrupt source overrides.
    pub overrides: Vec<InterruptOverride>,
    /// NMIs.
    pub nmis: Vec<NmiSource>,
}

/// What a `MadtInfo` says.
#[verifier::ext_equal]
pub struct MadtView {
    pub local_apic_addr: u64,
    pub io_apic_addr: u64,
    pub io_apic_gsi_base: u32,
    pub processors: Seq<u8>,
    pub overrides: Seq<InterruptOverride>,
    pub nmis: Seq<NmiSource>,
}

impl View for MadtInfo {
    type V = MadtView;

    open spec fn view(&self) -> MadtView {
        MadtView {
            local_apic_addr: self.local_apic_addr,
            io_apic_addr: self.io_apic_addr,
            io_apic_gsi_base: self.io_apic_gsi_base,
            processors: self.processors@,
            overrides: self.overrides@,
            nmis: self.nmis@,
        }
    }
}

/// What is known after the record at `at` of memory. Records that are too short for what
/// they say they are, and unknown ones, add nothing.
pub open spec fn with_record(v: MadtView, memory: Seq<u8>, at: int) -> MadtView {
    let kind = memory[at];
    let len = memory[at + 1];
    let data = at + 2;
    if kind == 0 && len >= 8 {
        if bytes::le32(memory, data + 2) % 2 == 1 {
            MadtView { processors: v.processors.push(memory[data + 1]), ..v }
        } else {
            v
        }
    } else if kind == 1 && len >= 12 {
        MadtView {
            io_apic_addr: bytes::le32(memory, data + 2) as u64,
            io_apic_gsi_base: bytes::le32(memory, data + 6),
            ..v
        }
    } else if kind == 2 && len >= 10 {
        let flags = bytes::le16(memory, data + 6);
        MadtView {
            overrides: v.overrides.push(
                InterruptOverride {
                    bus: memory[data],
                    source: memory[data + 1],
                    global: bytes::le32(memory, data + 2),
                    polarity: (flags % 4) as u8,
                    trigger: (flags / 4 % 4) as u8,
                },
            ),
            ..v
        }
    } else if (kind == 3 || kind == 4) && len >= 6 {
        MadtView {
            nmis: v.nmis.push(
                NmiSource {
                    processor: memory[data],
                    pin: if kind == 4 {
                        memory[data + 3]
                    } else {
                        0xFF
                    },
                    polarity: 0,
                    trigger: 0,
                },
            ),
            ..v
        }
    } else if kind == 5 && len >= 12 {
        MadtView { local_apic_addr: bytes::le64(memory, data + 2), ..v }
    } else {
        v
    }
}

/// The console once the record at `at` has been read.
pub open spec fn with_record_text(out: Seq<u8>, memory: Seq<u8>, at: int) -> Seq<u8> {
    let kind = memory[at];
    let len = memory[at + 1];
    if kind == 0 && len >= 8 {
        out + serial::text("[ACPI]   LAPIC: id="@) + serial::hex_text(memory[at + 3] as u64)
            + serial::text(" enabled="@) + serial::hex_text(
            (bytes::le32(memory, at + 4) % 2) as u64,
        ) + serial::line_end()
    } else if kind == 1 && len >= 12 {
        out + serial::text("[ACPI]   IOAPIC: id="@) + serial::hex_text(memory[at + 2] as u64)
            + serial::text(" addr="@) + serial::hex_text(bytes::le32(memory, at + 4) as u64)
            + serial::text(" gsi_base="@) + serial::hex_text(bytes::le32(memory, at + 8) as u64)
            + serial::line_end()
    } else if kind == 2 && len >= 10 {
        out + serial::text("[ACPI]   Override: bus="@) + serial::hex_text(memory[at + 2] as u64)
            + serial::text(" source="@) + serial::hex_text(memory[at + 3] as u64) + serial::text(
            " global="@,
        ) + serial::hex_text(bytes::le32(memory, at + 4) as u64) + serial::line_end()
    } else if kind == 5 && len >= 12 {
        out + serial::text("[ACPI]   LAPIC addr override: "@) + serial::hex_text(
            bytes::le64(memory, at + 4),
        ) + serial::line_end()
    } else {
        out
    }
}

/// The console once the records from `at` up to `end` have been read.
pub open spec fn with_records_text(out: Seq<u8>, memory: Seq<u8>, at: int, end: int) -> Seq<u8>
    decreases end - at,
{
    if at + 2 > end || memory[at + 1] < 2 || at + memory[at + 1] > end {
        out
    } else {
        with_records_text(
            with_record_text(out, memory, at),
            memory,
            at + memory[at + 1],
            end,
        )
    }
}

/// The console once the table at `at` has been read.
pub open spec fn with_madt_text(out: Seq<u8>, memory: Seq<u8>, at: int) -> Seq<u8> {
    with_records_text(out, memory, at + 44, at + bytes::le32(memory, at + 4))
}

/// What is known after the records from `at` up to `end`. A record that is shorter than
/// its own head, or longer than what is left, ends the table.
pub open spec fn with_records(v: MadtView, memory: Seq<u8>, at: int, end: int) -> MadtView
    decreases end - at,
{
    if at + 2 > end || memory[at + 1] < 2 || at + memory[at + 1] > end {
        v
    } else {
        with_records(with_record(v, memory, at), memory, at + memory[at + 1], end)
    }
}

/// What is known before the first record: the address of the local APIC, which is
/// 0xFEE00000 if the table leaves it out.
pub open spec fn before_records(memory: Seq<u8>, at: int) -> MadtView {
    let addr = bytes::le32(memory, at + 36);
    MadtView {
        local_apic_addr: if addr == 0 {
            0xFEE0_0000
        } else {
            addr as u64
        },
        io_apic_addr: 0,
        io_apic_gsi_base: 0,
        processors: Seq::empty(),
        overrides: Seq::empty(),
        nmis: Seq::empty(),
    }
}

/// What the table at `at` says. Its records start behind 44 bytes.
pub open spec fn madt_of(memory: Seq<u8>, at: int) -> MadtView {
    with_records(
        before_records(memory, at),
        memory,
        at + 44,
        at + bytes::le32(memory, at + 4),
    )
}

/// Whether the memory of the table is there.
pub open spec fn madt_mapped(memory: Seq<u8>, at: int) -> bool {
    acpi::mapped(memory, at, 44) && acpi::mapped(memory, at, bytes::le32(memory, at + 4) as int)
}

/// Adds what one record says.
fn add_record(info: &mut MadtInfo, memory: &[u8], at: usize, out: &mut Vec<u8>)
    requires
        at + 2 <= memory@.len(),
        memory@[at + 1] >= 2,
        at + memory@[at + 1] <= memory@.len(),
    ensures
        final(info)@ == with_record(old(info)@, memory@, at as int),
        final(out)@ == with_record_text(old(out)@, memory@, at as int),
{
    assert(at + memory@[at + 1] <= memory.len());
    let kind: u8 = memory[at];
    let len: u8 = memory[at + 1];
    if kind == 0 {
        if len >= 8 {
            let flags: u32 = bytes::read_u32(memory, at + 4);
            serial::write_str(out, "[ACPI]   LAPIC: id=");
            serial::write_hex(out, memory[at + 3] as u64);
            serial::write_str(out, " enabled=");
            serial::write_hex(out, (flags % 2) as u64);
            serial::write_nl(out);
            if flags % 2 == 1 {
                info.processors.push(memory[at + 3]);
            }
        }
    } else if kind == 1 {
        if len >= 12 {
            info.io_apic_addr = bytes::read_u32(memory, at + 4) as u64;
            info.io_apic_gsi_base = bytes::read_u32(memory, at + 8);
            serial::write_str(out, "[ACPI]   IOAPIC: id=");
            serial::write_hex(out, memory[at + 2] as u64);
            serial::write_str(out, " addr=");
            serial::write_hex(out, info.io_apic_addr);
            serial::write_str(out, " gsi_base=");
            serial::write_hex(out, info.io_apic_gsi_base as u64);
            serial::write_nl(out);
        }
    } else if kind == 2 {
        if len >= 10 {
            let flags: u16 = bytes::read_u16(memory, at + 8);
            serial::write_str(out, "[ACPI]   Override: bus=");
            serial::write_hex(out, memory[at + 2] as u64);
            serial::write_str(out, " source=");
            serial::write_hex(out, memory[at + 3] as u64);
            serial::write_str(out, " global=");
            serial::write_hex(out, bytes::read_u32(memory, at + 4) as u64);
            serial::write_nl(out);
            info.overrides.push(
                InterruptOverride {
                    bus: memory[at + 2],
                    source: memory[at + 3],
                    global: bytes::read_u32(memory, at + 4),
                    polarity: (flags % 4) as u8,
                    trigger: (flags / 4 % 4) as u8,
                },
            );
        }
    } else if kind == 3 || kind == 4 {
        if len >= 6 {
            let pin: u8 = if kind == 4 {
                memory[at + 5]
            } else {
                0xFF
            };
            info.nmis.push(
                NmiSource { processor: memory[at + 2], pin, polarity: 0, trigger: 0 },
            );
        }
    } else if kind == 5 {
        if len >= 12 {
            info.local_apic_addr = bytes::read_u64(memory, at + 4);
            serial::write_str(out, "[ACPI]   LAPIC addr override: ");
            serial::write_hex(out, info.local_apic_addr);
            serial::write_nl(out);
        }
    }
}

/// Parse the MADT. What it lists is noted on the console.
pub fn parse_madt(memory: &[u8], madt_phys: u64, out: &mut Vec<u8>) -> (r: MadtInfo)
    requires
        madt_mapped(memory@, madt_phys as int),
    ensures
        r@ == madt_of(memory@, madt_phys as int),
        final(out)@ == with_madt_text(old(out)@, memory@, madt_phys as int),
{
    assert(madt_phys + 44 <= memory.len());
    let at: usize = madt_phys as usize;
    let addr: u32 = bytes::read_u32(memory, at + 36);
    let mut info: MadtInfo = MadtInfo {
        local_apic_addr: if addr == 0 {
            0xFEE0_0000
        } else {
            addr as u64
        },
        io_apic_addr: 0,
        io_apic_gsi_base: 0,
        processors: Vec::new(),
        overrides: Vec::new(),
        nmis: Vec::new(),
    };
    let table_len: u32 = bytes::read_u32(memory, at + 4);
    assert(at + table_len <= memory.len());
    let end: usize = at + table_len as usize;
    let mut offset: usize = at + 44;
    assert(info@ =~= before_records(memory@, at as int));
    while offset <= end && end - offset >= 2
        invariant
            end <= memory@.len(),
            offset <= end || offset == at + 44,
            with_records(info@, memory@, offset as int, end as int) == with_records(
                before_records(memory@, at as int),
                memory@,
                at + 44,
                end as int,
            ),
            with_records_text(out@, memory@, offset as int, end as int) == with_records_text(
                old(out)@,
                memory@,
                at + 44,
                end as int,
            ),
        ensures
            out@ == with_records_text(old(out)@, memory@, at + 44, end as int),
            info@ == with_records(
                before_records(memory@, at as int),
                memory@,
                at + 44,
                end as int,
            ),
        decreases end - offset,
    {
        assert(offset + 2 <= memory.len());
        let len: usize = memory[offset + 1] as usize;
        if len < 2 || len > end - offset {
            break;
        }
        add_record(&mut info, memory, offset, out);
        offset = offset + len;
    }
    info
}

} // verus!
