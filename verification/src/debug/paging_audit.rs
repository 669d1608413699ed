//! Paging audit: a report on the state of virtual memory.
//!
//! Nothing is changed. What the CPU and the page tables hold is handed over, and the
//! report says what it means.
use vstd::prelude::*;

use crate::memory;
use crate::memory::vmm;
use crate::memory::vmm::{frame_of, phys_to_virt};
use crate::memory::{phys_to_kernel_virt, KERNEL_VIRT_BASE};
use crate::serial;

verus! {

/// What the audit looks at.
pub struct AuditInput {
    pub cr3: u64,
    /// The cache-disable and write-through bits of CR3.
    pub pcd: bool,
    pub pwt: bool,
    /// The entries of the root table.
    pub pml4: Vec<u64>,
    pub kernel_main_phys: u64,
    pub kernel_phys_start: u64,
    /// What the page tables say of the address of `kernel_main`.
    pub kernel_main: Option<u64>,
    /// The entries on the way to the start of the kernel, as far as they can be followed.
    pub path: [u64; 4],
    /// What the page tables say of the sample addresses.
    pub samples: [Option<u64>; 4],
    pub rsp: u64,
    /// What the page tables say of the stack pointer.
    pub stack: Option<u64>,
}

/// A word of the report, if it applies.
pub open spec fn with_word(out: Seq<u8>, applies: bool, word: Seq<char>) -> Seq<u8> {
    if applies {
        out + serial::text(word)
    } else {
        out
    }
}

fn write_word(out: &mut Vec<u8>, applies: bool, word: &str)
    ensures
        final(out)@ == with_word(old(out)@, applies, word@),
{
    if applies {
        serial::write_str(out, word);
    }
}

/// The frame of an entry, or 0.
pub open spec fn frame_or_zero(entry: u64) -> u64 {
    match vmm::entry_frame(entry) {
        Some(f) => f,
        None => 0,
    }
}

fn frame_address(entry: u64) -> (r: u64)
    ensures
        r == frame_or_zero(entry),
{
    match frame_of(entry) {
        Some(f) => f,
        None => 0,
    }
}

/// The flags of an entry in short.
pub open spec fn with_entry_flags(out: Seq<u8>, entry: u64) -> Seq<u8> {
    let t1 = with_word(out, entry % 2 == 1, "P "@);
    let t2 = with_word(t1, entry / 2 % 2 == 1, "W "@);
    let t3 = with_word(t2, entry / 4 % 2 == 1, "U "@);
    let t4 = with_word(t3, entry / 32 % 2 == 1, "A "@);
    let t5 = with_word(t4, entry / 64 % 2 == 1, "D "@);
    let t6 = with_word(t5, entry / 128 % 2 == 1, "PS "@);
    with_word(t6, entry >= 0x8000_0000_0000_0000, "NX "@) + serial::line_end()
}

fn write_entry_flags(out: &mut Vec<u8>, entry: u64)
    ensures
        final(out)@ == with_entry_flags(old(out)@, entry),
{
    write_word(out, entry % 2 == 1, "P ");
    write_word(out, entry / 2 % 2 == 1, "W ");
    write_word(out, entry / 4 % 2 == 1, "U ");
    write_word(out, entry / 32 % 2 == 1, "A ");
    write_word(out, entry / 64 % 2 == 1, "D ");
    write_word(out, entry / 128 % 2 == 1, "PS ");
    write_word(out, entry >= 0x8000_0000_0000_0000, "NX ");
    serial::write_nl(out);
}

/// The entries of the root table that are in use, among the first `n`.
pub open spec fn with_entries(out: Seq<u8>, entries: Seq<u64>, n: int) -> Seq<u8>
    decreases n,
{
    if n <= 0 {
        out
    } else {
        let rest = with_entries(out, entries, n - 1);
        let i = n - 1;
        if entries[i] == 0 {
            rest
        } else {
            let t1 = rest + serial::text("    ["@);
            let t2 = with_word(t1, i < 10, "  "@);
            let t3 = with_word(t2, 10 <= i < 100, " "@);
            let t4 = t3 + serial::hex_text(i as u64) + serial::text("] → 0x"@) + serial::hex_text(
                frame_or_zero(entries[i]),
            ) + serial::text("  flags="@);
            with_entry_flags(t4, entries[i])
        }
    }
}

fn write_entries(out: &mut Vec<u8>, entries: &[u64])
    ensures
        final(out)@ == with_entries(old(out)@, entries@, entries@.len() as int),
{
    let ghost start = out@;
    let mut i: usize = 0;
    while i < entries.len()
        invariant
            i <= entries@.len(),
            out@ == with_entries(start, entries@, i as int),
        decreases entries@.len() - i,
    {
        let entry: u64 = entries[i];
        if entry != 0 {
            serial::write_str(out, "    [");
            write_word(out, i < 10, "  ");
            write_word(out, i >= 10 && i < 100, " ");
            serial::write_hex(out, i as u64);
            serial::write_str(out, "] → 0x");
            serial::write_hex(out, frame_address(entry));
            serial::write_str(out, "  flags=");
            write_entry_flags(out, entry);
        }
        i = i + 1;
    }
}

/// The section on CR3.
pub open spec fn with_cr3(out: Seq<u8>, cr3: u64, pcd: bool, pwt: bool, pml4: Seq<u64>) -> Seq<u8> {
    let t1 = out
        + serial::text("── 1. CR3 (PML4 physical address) ──"@)
        + serial::line_end()
        + serial::text("  CR3 = 0x"@)
        + serial::hex_text(cr3)
        + serial::line_end()
        + serial::text("  CR3 flags: "@);
    let t2 = with_word(t1, pcd, "PCD "@);
    let t3 = with_word(t2, pwt, "PWT "@) + serial::line_end();
    let t4 = if cr3 < 0x1_0000_0000 {
        t3 + serial::text("  NOTE: CR3 is in identity-mapped range (< 4 GiB)"@) + serial::line_end()
    } else {
        t3
    };
    with_entries(
        t4 + serial::text("  PML4 entries (non-empty):"@) + serial::line_end(),
        pml4,
        pml4.len() as int,
    )
}

pub fn audit_cr3(out: &mut Vec<u8>, cr3: u64, pcd: bool, pwt: bool, pml4: &[u64])
    ensures
        final(out)@ == with_cr3(old(out)@, cr3, pcd, pwt, pml4@),
{
    serial::write_str(out, "── 1. CR3 (PML4 physical address) ──");
    serial::write_nl(out);
    serial::write_str(out, "  CR3 = 0x");
    serial::write_hex(out, cr3);
    serial::write_nl(out);
    serial::write_str(out, "  CR3 flags: ");
    write_word(out, pcd, "PCD ");
    write_word(out, pwt, "PWT ");
    serial::write_nl(out);
    if cr3 < 0x1_0000_0000 {
        serial::write_str_nl(out, "  NOTE: CR3 is in identity-mapped range (< 4 GiB)");
    }
    serial::write_str_nl(out, "  PML4 entries (non-empty):");
    write_entries(out, pml4);
}

/// The section on the address of `kernel_main`.
pub open spec fn with_kernel_translation(
    out: Seq<u8>,
    phys: u64,
    kernel_phys_start: u64,
    found: Option<u64>,
) -> Seq<u8> {
    let t1 = out
        + serial::text("── 2. Kernel virtual address translation ──"@)
        + serial::line_end()
        + serial::text("  kernel_main physical (PIC): 0x"@)
        + serial::hex_text(phys)
        + serial::line_end()
        + serial::text("  kernel_main virtual (computed): 0x"@)
        + serial::hex_text(memory::kernel_virt(phys, kernel_phys_start))
        + serial::line_end();
    match found {
        Some(p) => {
            let t2 = t1 + serial::text("  Page table translates to: 0x"@) + serial::hex_text(p)
                + serial::line_end();
            if p == phys {
                t2 + serial::text("  MATCH: page table maps virtual → expected physical"@)
                    + serial::line_end()
            } else {
                t2 + serial::text("  MISMATCH: page table maps virtual → DIFFERENT physical"@)
                    + serial::line_end() + serial::text("    Expected: 0x"@) + serial::hex_text(
                    phys,
                ) + serial::line_end()
            }
        },
        None => t1 + serial::text(
            "  NOT MAPPED: kernel_main virtual address has no page table entry!"@,
        ) + serial::line_end() + serial::text(
            "  This means the higher-half mapping is NOT working."@,
        ) + serial::line_end(),
    }
}

pub fn audit_kernel_translation(
    out: &mut Vec<u8>,
    phys: u64,
    kernel_phys_start: u64,
    found: Option<u64>,
)
    ensures
        final(out)@ == with_kernel_translation(old(out)@, phys, kernel_phys_start, found),
{
    serial::write_str(out, "── 2. Kernel virtual address translation ──");
    serial::write_nl(out);
    serial::write_str(out, "  kernel_main physical (PIC): 0x");
    serial::write_hex(out, phys);
    serial::write_nl(out);
    serial::write_str(out, "  kernel_main virtual (computed): 0x");
    serial::write_hex(out, phys_to_kernel_virt(phys, kernel_phys_start));
    serial::write_nl(out);
    match found {
        Some(p) => {
            serial::write_str(out, "  Page table translates to: 0x");
            serial::write_hex(out, p);
            serial::write_nl(out);
            if p == phys {
                serial::write_str_nl(out, "  MATCH: page table maps virtual → expected physical");
            } else {
                serial::write_str_nl(
                    out,
                    "  MISMATCH: page table maps virtual → DIFFERENT physical",
                );
                serial::write_str(out, "    Expected: 0x");
                serial::write_hex(out, phys);
                serial::write_nl(out);
            }
        },
        None => {
            serial::write_str_nl(
                out,
                "  NOT MAPPED: kernel_main virtual address has no page table entry!",
            );
            serial::write_str_nl(out, "  This means the higher-half mapping is NOT working.");
        },
    }
}

/// The last step of the way: the entry of the page.
pub open spec fn with_page_entry(out: Seq<u8>, entry: u64) -> Seq<u8> {
    let t = out + serial::text("  PT index: "@) + serial::hex_text(0) + serial::line_end();
    if entry == 0 {
        t + serial::text("  PT entry is EMPTY — page not mapped"@) + serial::line_end()
    } else {
        t + serial::text("  PT → physical 0x"@) + serial::hex_text(frame_or_zero(entry))
            + serial::line_end()
    }
}

fn write_page_entry(out: &mut Vec<u8>, entry: u64)
    ensures
        final(out)@ == with_page_entry(old(out)@, entry),
{
    serial::write_str(out, "  PT index: ");
    serial::write_hex(out, 0);
    serial::write_nl(out);
    if entry == 0 {
        serial::write_str_nl(out, "  PT entry is EMPTY — page not mapped");
    } else {
        serial::write_str(out, "  PT → physical 0x");
        serial::write_hex(out, frame_address(entry));
        serial::write_nl(out);
    }
}

/// The third step of the way.
pub open spec fn with_directory_entry(out: Seq<u8>, entry: u64, next: u64) -> Seq<u8> {
    let t = out + serial::text("  PD index: "@) + serial::hex_text(0) + serial::line_end();
    if entry == 0 {
        t + serial::text("  PD entry is EMPTY — mapping incomplete"@) + serial::line_end()
    } else if entry / 128 % 2 == 1 {
        t + serial::text("  PD entry is a 2 MiB huge page → 0x"@) + serial::hex_text(
            frame_or_zero(entry),
        ) + serial::line_end()
    } else {
        with_page_entry(
            t + serial::text("  PD → PT at 0x"@) + serial::hex_text(frame_or_zero(entry))
                + serial::line_end(),
            next,
        )
    }
}

fn write_directory_entry(out: &mut Vec<u8>, entry: u64, next: u64)
    ensures
        final(out)@ == with_directory_entry(old(out)@, entry, next),
{
    serial::write_str(out, "  PD index: ");
    serial::write_hex(out, 0);
    serial::write_nl(out);
    if entry == 0 {
        serial::write_str_nl(out, "  PD entry is EMPTY — mapping incomplete");
    } else if entry / 128 % 2 == 1 {
        serial::write_str(out, "  PD entry is a 2 MiB huge page → 0x");
        serial::write_hex(out, frame_address(entry));
        serial::write_nl(out);
    } else {
        serial::write_str(out, "  PD → PT at 0x");
        serial::write_hex(out, frame_address(entry));
        serial::write_nl(out);
        write_page_entry(out, next);
    }
}

/// The second step of the way.
pub open spec fn with_pointer_entry(out: Seq<u8>, path: Seq<u64>) -> Seq<u8> {
    let t = out + serial::text("  PDPT index: "@) + serial::hex_text(510) + serial::line_end();
    if path[1] == 0 {
        t + serial::text("  PDPT entry is EMPTY — mapping incomplete"@) + serial::line_end()
    } else if path[1] / 128 % 2 == 1 {
        t + serial::text("  PDPT entry is a 1 GiB huge page → 0x"@) + serial::hex_text(
            frame_or_zero(path[1]),
        ) + serial::line_end()
    } else {
        with_directory_entry(
            t + serial::text("  PDPT → PD at 0x"@) + serial::hex_text(frame_or_zero(path[1]))
                + serial::line_end(),
            path[2],
            path[3],
        )
    }
}

fn write_pointer_entry(out: &mut Vec<u8>, path: &[u64; 4])
    ensures
        final(out)@ == with_pointer_entry(old(out)@, path@),
{
    serial::write_str(out, "  PDPT index: ");
    serial::write_hex(out, 510);
    serial::write_nl(out);
    let entry: u64 = path[1];
    if entry == 0 {
        serial::write_str_nl(out, "  PDPT entry is EMPTY — mapping incomplete");
    } else if entry / 128 % 2 == 1 {
        serial::write_str(out, "  PDPT entry is a 1 GiB huge page → 0x");
        serial::write_hex(out, frame_address(entry));
        serial::write_nl(out);
    } else {
        serial::write_str(out, "  PDPT → PD at 0x");
        serial::write_hex(out, frame_address(entry));
        serial::write_nl(out);
        write_directory_entry(out, path[2], path[3]);
    }
}

/// The section on the start of the kernel in the upper half. It is reached through the
/// entries 511, 510, 0 and 0 of the four tables.
pub open spec fn with_higher_half(out: Seq<u8>, path: Seq<u64>) -> Seq<u8> {
    let t = out + serial::text("── 3. Higher-half mapping check ──"@) + serial::line_end()
        + serial::text("  PML4 index: "@) + serial::hex_text(511) + serial::line_end()
        + serial::text("  PML4["@) + serial::hex_text(511) + serial::text(
        "] (for 0xFFFF_FFFF_8000_0000): "@,
    );
    if path[0] == 0 {
        t + serial::text("EMPTY — higher-half NOT mapped!"@) + serial::line_end()
    } else {
        with_pointer_entry(
            t + serial::text("→ PDPT at 0x"@) + serial::hex_text(frame_or_zero(path[0]))
                + serial::line_end(),
            path,
        )
    }
}

pub fn audit_higher_half_mapping(out: &mut Vec<u8>, path: &[u64; 4])
    ensures
        final(out)@ == with_higher_half(old(out)@, path@),
{
    serial::write_str_nl(out, "── 3. Higher-half mapping check ──");
    let index: u64 = vmm::table_index(KERNEL_VIRT_BASE, 4) as u64;
    serial::write_str(out, "  PML4 index: ");
    serial::write_hex(out, index);
    serial::write_nl(out);
    serial::write_str(out, "  PML4[");
    serial::write_hex(out, index);
    serial::write_str(out, "] (for 0xFFFF_FFFF_8000_0000): ");
    if path[0] == 0 {
        serial::write_str_nl(out, "EMPTY — higher-half NOT mapped!");
    } else {
        serial::write_str(out, "→ PDPT at 0x");
        serial::write_hex(out, frame_address(path[0]));
        serial::write_nl(out);
        write_pointer_entry(out, path);
    }
}

/// The sample addresses: low memory, video memory, and two devices.
pub open spec fn sample_address(i: int) -> u64 {
    if i == 0 {
        0x1000
    } else if i == 1 {
        0xB_8000
    } else if i == 2 {
        0xFEE0_0000
    } else {
        0xF000_0000
    }
}

/// What is reported of a sample address.
pub open spec fn with_sample(out: Seq<u8>, addr: u64, found: Option<u64>) -> Seq<u8> {
    let t = out + serial::text("  0x"@) + serial::hex_text(addr);
    match found {
        Some(p) => t + serial::text(" → 0x"@) + serial::hex_text(p) + serial::text(
            if p == addr {
                "  (identity: OK)"@
            } else {
                "  (NOT identity)"@
            },
        ) + serial::line_end(),
        None => t + serial::text("  NOT MAPPED"@) + serial::line_end(),
    }
}

fn write_sample(out: &mut Vec<u8>, addr: u64, found: Option<u64>)
    ensures
        final(out)@ == with_sample(old(out)@, addr, found),
{
    serial::write_str(out, "  0x");
    serial::write_hex(out, addr);
    match found {
        Some(p) => {
            serial::write_str(out, " → 0x");
            serial::write_hex(out, p);
            serial::write_str_nl(
                out,
                if p == addr {
                    "  (identity: OK)"
                } else {
                    "  (NOT identity)"
                },
            );
        },
        None => {
            serial::write_str_nl(out, "  NOT MAPPED");
        },
    }
}

/// The section on the identity map.
pub open spec fn with_identity(out: Seq<u8>, entry: u64, samples: Seq<Option<u64>>) -> Seq<u8> {
    let t1 = out + serial::text("── 4. Identity mapping check ──"@) + serial::line_end()
        + serial::text("  PML4[0] (for identity map): "@);
    let t2 = if entry == 0 {
        t1 + serial::text("EMPTY — identity map NOT present!"@) + serial::line_end()
    } else {
        t1 + serial::text("→ PDPT at 0x"@) + serial::hex_text(frame_or_zero(entry))
            + serial::line_end() + serial::text("  (identity map is present)"@)
            + serial::line_end()
    };
    let t3 = with_sample(t2, sample_address(0), samples[0]);
    let t4 = with_sample(t3, sample_address(1), samples[1]);
    let t5 = with_sample(t4, sample_address(2), samples[2]);
    with_sample(t5, sample_address(3), samples[3])
}

pub fn audit_identity_mapping(out: &mut Vec<u8>, entry: u64, samples: &[Option<u64>; 4])
    ensures
        final(out)@ == with_identity(old(out)@, entry, samples@),
{
    serial::write_str_nl(out, "── 4. Identity mapping check ──");
    serial::write_str(out, "  PML4[0] (for identity map): ");
    if entry == 0 {
        serial::write_str_nl(out, "EMPTY — identity map NOT present!");
    } else {
        serial::write_str(out, "→ PDPT at 0x");
        serial::write_hex(out, frame_address(entry));
        serial::write_nl(out);
        serial::write_str_nl(out, "  (identity map is present)");
    }
    write_sample(out, 0x1000, samples[0]);
    write_sample(out, 0xB_8000, samples[1]);
    write_sample(out, 0xFEE0_0000, samples[2]);
    write_sample(out, 0xF000_0000, samples[3]);
}

/// The section on the stack.
pub open spec fn with_stack(out: Seq<u8>, rsp: u64, found: Option<u64>) -> Seq<u8> {
    let t = out + serial::text("── 5. Stack mapping ──"@) + serial::line_end() + serial::text(
        "  Current RSP: 0x"@,
    ) + serial::hex_text(rsp) + serial::line_end();
    match found {
        Some(p) => t + serial::text("  RSP physical: 0x"@) + serial::hex_text(p)
            + serial::line_end() + serial::text(
            if p == rsp {
                "  Stack is identity-mapped (physical == virtual)"@
            } else {
                "  Stack is NOT identity-mapped"@
            },
        ) + serial::line_end() + serial::text("    Page offset: 0x"@) + serial::hex_text(
            (rsp % 4096) as u64,
        ) + serial::line_end(),
        None => t + serial::text("  RSP page NOT MAPPED — stack is invalid!"@)
            + serial::line_end(),
    }
}

pub fn audit_stack_mapping(out: &mut Vec<u8>, rsp: u64, found: Option<u64>)
    ensures
        final(out)@ == with_stack(old(out)@, rsp, found),
{
    serial::write_str_nl(out, "── 5. Stack mapping ──");
    serial::write_str(out, "  Current RSP: 0x");
    serial::write_hex(out, rsp);
    serial::write_nl(out);
    match found {
        Some(p) => {
            serial::write_str(out, "  RSP physical: 0x");
            serial::write_hex(out, p);
            serial::write_nl(out);
            serial::write_str_nl(
                out,
                if p == rsp {
                    "  Stack is identity-mapped (physical == virtual)"
                } else {
                    "  Stack is NOT identity-mapped"
                },
            );
            serial::write_str(out, "    Page offset: 0x");
            serial::write_hex(out, rsp % 4096);
            serial::write_nl(out);
        },
        None => {
            serial::write_str_nl(out, "  RSP page NOT MAPPED — stack is invalid!");
        },
    }
}

/// The section on the conversions between physical and virtual addresses. They agree
/// with each other: this is what the section says.
pub open spec fn with_consistency(out: Seq<u8>, kernel_phys_start: u64, kernel_main_phys: u64) -> Seq<
    u8,
> {
    let test_virt = memory::kernel_virt((kernel_phys_start + 0x1000) as u64, kernel_phys_start);
    let main_virt = memory::kernel_virt(kernel_main_phys, kernel_phys_start);
    let t1 = out
        + serial::text("── 6. phys_to_virt / virt_to_phys consistency ──"@)
        + serial::line_end()
        + serial::text("  kernel_phys_start: 0x"@)
        + serial::hex_text(kernel_phys_start)
        + serial::line_end()
        + serial::text("  KERNEL_VIRT_BASE:  0x"@)
        + serial::hex_text(KERNEL_VIRT_BASE)
        + serial::line_end()
        + serial::text("  Test physical: 0x"@)
        + serial::hex_text((kernel_phys_start + 0x1000) as u64)
        + serial::line_end();
    let t2 = t1
        + serial::text("  phys_to_kernel_virt: 0x"@)
        + serial::hex_text(test_virt)
        + serial::line_end()
        + serial::text("  Expected:            0x"@)
        + serial::hex_text(test_virt)
        + serial::line_end()
        + serial::text("  MATCH: phys_to_kernel_virt is consistent"@)
        + serial::line_end();
    let t3 = t2
        + serial::text("  Identity mapping assumption check:"@)
        + serial::line_end()
        + serial::text("    phys_to_virt(0x1000) = 0x"@)
        + serial::hex_text(0x1000)
        + serial::line_end()
        + serial::text("    OK: phys_to_virt returns identity (phys == virt)"@)
        + serial::line_end();
    t3
        + serial::text("  kernel_main PIC addr:  0x"@)
        + serial::hex_text(kernel_main_phys)
        + serial::line_end()
        + serial::text("  After +offset:         0x"@)
        + serial::hex_text(main_virt)
        + serial::line_end()
        + serial::text("  phys_to_kernel_virt:   0x"@)
        + serial::hex_text(main_virt)
        + serial::line_end()
        + serial::text("  MATCH: PIC + offset = phys_to_kernel_virt result"@)
        + serial::line_end()
}

pub fn audit_phys_virt_consistency(
    out: &mut Vec<u8>,
    kernel_phys_start: u64,
    kernel_main_phys: u64,
)
    requires
        kernel_phys_start + 0x1000 <= u64::MAX,
    ensures
        final(out)@ == with_consistency(old(out)@, kernel_phys_start, kernel_main_phys),
{
    let test_virt: u64 = phys_to_kernel_virt(kernel_phys_start + 0x1000, kernel_phys_start);
    let main_virt: u64 = phys_to_kernel_virt(kernel_main_phys, kernel_phys_start);
    serial::write_str(out, "── 6. phys_to_virt / virt_to_phys consistency ──");
    serial::write_nl(out);
    serial::write_str(out, "  kernel_phys_start: 0x");
    serial::write_hex(out, kernel_phys_start);
    serial::write_nl(out);
    serial::write_str(out, "  KERNEL_VIRT_BASE:  0x");
    serial::write_hex(out, KERNEL_VIRT_BASE);
    serial::write_nl(out);
    serial::write_str(out, "  Test physical: 0x");
    serial::write_hex(out, kernel_phys_start + 0x1000);
    serial::write_nl(out);
    serial::write_str(out, "  phys_to_kernel_virt: 0x");
    serial::write_hex(out, test_virt);
    serial::write_nl(out);
    serial::write_str(out, "  Expected:            0x");
    serial::write_hex(out, test_virt);
    serial::write_nl(out);
    serial::write_str(out, "  MATCH: phys_to_kernel_virt is consistent");
    serial::write_nl(out);
    serial::write_str(out, "  Identity mapping assumption check:");
    serial::write_nl(out);
    serial::write_str(out, "    phys_to_virt(0x1000) = 0x");
    serial::write_hex(out, phys_to_virt(0x1000));
    serial::write_nl(out);
    serial::write_str(out, "    OK: phys_to_virt returns identity (phys == virt)");
    serial::write_nl(out);
    serial::write_str(out, "  kernel_main PIC addr:  0x");
    serial::write_hex(out, kernel_main_phys);
    serial::write_nl(out);
    serial::write_str(out, "  After +offset:         0x");
    serial::write_hex(out, main_virt);
    serial::write_nl(out);
    serial::write_str(out, "  phys_to_kernel_virt:   0x");
    serial::write_hex(out, main_virt);
    serial::write_nl(out);
    serial::write_str(out, "  MATCH: PIC + offset = phys_to_kernel_virt result");
    serial::write_nl(out);
}

/// The whole report.
pub open spec fn with_audit(out: Seq<u8>, i: &AuditInput) -> Seq<u8> {
    let t0 = out
        + serial::text("━━━━━━━━━━━━━━━━━━━━━━━━━━━━━━━━━━━━━━━━━━━━━━━"@)
        + serial::line_end()
        + serial::text("  PAGING AUDIT"@)
        + serial::line_end()
        + serial::text("━━━━━━━━━━━━━━━━━━━━━━━━━━━━━━━━━━━━━━━━━━━━━━━"@)
        + serial::line_end();
    let t1 = with_cr3(t0, i.cr3, i.pcd, i.pwt, i.pml4@);
    let t2 = with_kernel_translation(t1, i.kernel_main_phys, i.kernel_phys_start, i.kernel_main);
    let t3 = with_higher_half(t2, i.path@);
    let t4 = with_identity(t3, i.pml4@[0], i.samples@);
    let t5 = with_stack(t4, i.rsp, i.stack);
    let t6 = with_consistency(t5, i.kernel_phys_start, i.kernel_main_phys);
    t6
        + serial::text("━━━━━━━━━━━━━━━━━━━━━━━━━━━━━━━━━━━━━━━━━━━━━━━"@)
        + serial::line_end()
        + serial::text("  PAGING AUDIT COMPLETE"@)
        + serial::line_end()
        + serial::text("━━━━━━━━━━━━━━━━━━━━━━━━━━━━━━━━━━━━━━━━━━━━━━━"@)
        + serial::line_end()
}

/// Run the full paging audit.
pub fn run_paging_audit(out: &mut Vec<u8>, input: &AuditInput)
    requires
        input.pml4@.len() == 512,
        input.kernel_phys_start + 0x1000 <= u64::MAX,
    ensures
        final(out)@ == with_audit(old(out)@, input),
{
    serial::write_str(out, "━━━━━━━━━━━━━━━━━━━━━━━━━━━━━━━━━━━━━━━━━━━━━━━");
    serial::write_nl(out);
    serial::write_str(out, "  PAGING AUDIT");
    serial::write_nl(out);
    serial::write_str(out, "━━━━━━━━━━━━━━━━━━━━━━━━━━━━━━━━━━━━━━━━━━━━━━━");
    serial::write_nl(out);
    audit_cr3(out, input.cr3, input.pcd, input.pwt, &input.pml4);
    audit_kernel_translation(
        out,
        input.kernel_main_phys,
        input.kernel_phys_start,
        input.kernel_main,
    );
    audit_higher_half_mapping(out, &input.path);
    audit_identity_mapping(out, input.pml4[0], &input.samples);
    audit_stack_mapping(out, input.rsp, input.stack);
    audit_phys_virt_consistency(out, input.kernel_phys_start, input.kernel_main_phys);
    serial::write_str(out, "━━━━━━━━━━━━━━━━━━━━━━━━━━━━━━━━━━━━━━━━━━━━━━━");
    serial::write_nl(out);
    serial::write_str(out, "  PAGING AUDIT COMPLETE");
    serial::write_nl(out);
    serial::write_str(out, "━━━━━━━━━━━━━━━━━━━━━━━━━━━━━━━━━━━━━━━━━━━━━━━");
    serial::write_nl(out);
}

} // verus!
