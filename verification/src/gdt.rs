//! The global descriptor table and the task state segment.
//!
//! The table holds a null entry, the code and data segments of Ring 0 and Ring 3, and
//! the descriptor of the task state segment, which takes two entries.
use vstd::prelude::*;
use x86_64::structures::gdt::Descriptor;
use x86_64::structures::gdt::GlobalDescriptorTable;

use crate::memory;
use crate::memory::phys_to_kernel_virt;

verus! {

/// IST index for the double-fault handler stack.
pub const DOUBLE_FAULT_IST_INDEX: u16 = 0;

/// Size of the double-fault IST stack (16 KiB).
pub const IST_STACK_SIZE: usize = 16384;

/// `x86_64::structures::gdt::GlobalDescriptorTable`, a bounded list of entries.
#[verifier::external_type_specification]
#[verifier::external_body]
pub struct ExGlobalDescriptorTable<const MAX: usize>(GlobalDescriptorTable<MAX>);

/// The entries of a table, the null entry at the start among them.
pub uninterp spec fn gdt_entries(gdt: GlobalDescriptorTable) -> Seq<u64>;

/// A descriptor: one entry of a code or data segment, or two of a system segment.
#[derive(Debug, Clone, Copy, PartialEq, Eq, Structural)]
pub enum Segment {
    User(u64),
    System(u64, u64),
}

impl Segment {
    /// The entries that the descriptor takes.
    pub open spec fn entries(self) -> Seq<u64> {
        match self {
            Segment::User(value) => seq![value],
            Segment::System(low, high) => seq![low, high],
        }
    }

    /// The privilege level: bits 45 and 46 of the first entry.
    pub open spec fn privilege(self) -> int {
        match self {
            Segment::User(value) => value as int / 0x2000_0000_0000 % 4,
            Segment::System(low, high) => low as int / 0x2000_0000_0000 % 4,
        }
    }
}

/// `GlobalDescriptorTable::new` gives a table of at most eight entries that holds the
/// null entry alone.
#[verifier::external_body]
fn new_table() -> (r: GlobalDescriptorTable)
    ensures
        gdt_entries(r) == seq![0u64],
{
    GlobalDescriptorTable::new()
}

/// `GlobalDescriptorTable::append` adds the entries of a descriptor at the end. The
/// selector that it returns is eight times the index of the first of them, plus the
/// descriptor's privilege level. It panics if the eight entries do not suffice.
#[verifier::external_body]
fn append(gdt: &mut GlobalDescriptorTable, segment: Segment) -> (r: u16)
    requires
        gdt_entries(*old(gdt)).len() + segment.entries().len() <= 8,
    ensures
        gdt_entries(*final(gdt)) == gdt_entries(*old(gdt)) + segment.entries(),
        r == 8 * gdt_entries(*old(gdt)).len() + segment.privilege(),
{
    let descriptor = match segment {
        Segment::User(value) => Descriptor::UserSegment(value),
        Segment::System(low, high) => Descriptor::SystemSegment(low, high),
    };
    gdt.append(descriptor).0
}

/// `GlobalDescriptorTable::entries` gives the entries in order; `Entry::raw` is the value
/// of one.
#[verifier::external_body]
fn raw_entries(gdt: &GlobalDescriptorTable) -> (r: Vec<u64>)
    ensures
        r@ == gdt_entries(*gdt),
{
    gdt.entries().iter().map(|e| e.raw()).collect()
}

/// `Descriptor::kernel_code_segment` is a flat 64-bit code segment of Ring 0.
#[verifier::external_body]
fn kernel_code_segment() -> (r: Segment)
    ensures
        r == Segment::User(0x00AF_9B00_0000_FFFF),
{
    match Descriptor::kernel_code_segment() {
        Descriptor::UserSegment(value) => Segment::User(value),
        Descriptor::SystemSegment(low, high) => Segment::System(low, high),
    }
}

/// `Descriptor::kernel_data_segment` is a flat data segment of Ring 0.
#[verifier::external_body]
fn kernel_data_segment() -> (r: Segment)
    ensures
        r == Segment::User(0x00CF_9300_0000_FFFF),
{
    match Descriptor::kernel_data_segment() {
        Descriptor::UserSegment(value) => Segment::User(value),
        Descriptor::SystemSegment(low, high) => Segment::System(low, high),
    }
}

/// `Descriptor::user_code_segment` is a flat 64-bit code segment of Ring 3.
#[verifier::external_body]
fn user_code_segment() -> (r: Segment)
    ensures
        r == Segment::User(0x00AF_FB00_0000_FFFF),
{
    match Descriptor::user_code_segment() {
        Descriptor::UserSegment(value) => Segment::User(value),
        Descriptor::SystemSegment(low, high) => Segment::System(low, high),
    }
}

/// `Descriptor::user_data_segment` is a flat data segment of Ring 3.
#[verifier::external_body]
fn user_data_segment() -> (r: Segment)
    ensures
        r == Segment::User(0x00CF_F300_0000_FFFF),
{
    match Descriptor::user_data_segment() {
        Descriptor::UserSegment(value) => Segment::User(value),
        Descriptor::SystemSegment(low, high) => Segment::System(low, high),
    }
}

/// Segment selectors of the table.
#[derive(Debug, Clone, Copy, PartialEq, Eq, Structural)]
pub struct Selectors {
    pub kernel_code: u16,
    pub kernel_data: u16,
    pub user_code: u16,
    pub user_data: u16,
    pub tss: u16,
}

/// Get the user code segment selector (Ring 3, CS).
pub fn user_code_selector(selectors: &Selectors) -> (r: u16)
    ensures
        r == selectors.user_code,
{
    selectors.user_code
}

/// Get the user data segment selector (Ring 3, SS).
pub fn user_data_selector(selectors: &Selectors) -> (r: u16)
    ensures
        r == selectors.user_data,
{
    selectors.user_data
}

/// Get the kernel code segment selector (Ring 0, CS).
pub fn kernel_code_selector(selectors: &Selectors) -> (r: u16)
    ensures
        r == selectors.kernel_code,
{
    selectors.kernel_code
}

/// Build the table. `tss_low` and `tss_high` describe the task state segment, at
/// privilege level 0.
pub fn init(tss_low: u64, tss_high: u64) -> (r: (GlobalDescriptorTable, Selectors))
    requires
        (Segment::System(tss_low, tss_high)).privilege() == 0,
    ensures
        gdt_entries(r.0) == seq![
            0u64,
            0x00AF_9B00_0000_FFFF,
            0x00CF_9300_0000_FFFF,
            0x00AF_FB00_0000_FFFF,
            0x00CF_F300_0000_FFFF,
            tss_low,
            tss_high,
        ],
        r.1 == (Selectors {
            kernel_code: 0x08,
            kernel_data: 0x10,
            user_code: 0x1B,
            user_data: 0x23,
            tss: 0x28,
        }),
{
    let mut gdt: GlobalDescriptorTable = new_table();
    let kernel_code: u16 = append(&mut gdt, kernel_code_segment());
    let kernel_data: u16 = append(&mut gdt, kernel_data_segment());
    let user_code: u16 = append(&mut gdt, user_code_segment());
    let user_data: u16 = append(&mut gdt, user_data_segment());
    let tss: u16 = append(&mut gdt, Segment::System(tss_low, tss_high));
    assert(gdt_entries(gdt) =~= seq![
        0u64,
        0x00AF_9B00_0000_FFFF,
        0x00CF_9300_0000_FFFF,
        0x00AF_FB00_0000_FFFF,
        0x00CF_F300_0000_FFFF,
        tss_low,
        tss_high,
    ]);
    (gdt, Selectors { kernel_code, kernel_data, user_code, user_data, tss })
}

/// The top of the double-fault stack in the upper half, where it stays mapped under
/// every process's page tables.
pub fn double_fault_stack_top(stack_phys: u64, kernel_phys_start: u64) -> (r: u64)
    requires
        memory::kernel_virt(stack_phys, kernel_phys_start) + IST_STACK_SIZE <= u64::MAX,
    ensures
        r == memory::kernel_virt(stack_phys, kernel_phys_start) + 16384,
{
    phys_to_kernel_virt(stack_phys, kernel_phys_start) + IST_STACK_SIZE as u64
}

/// The first entry of a task state segment with another base address, and marked as
/// available: bits 16 to 39 and 56 to 63 are the low 32 bits of the base, bit 41 says
/// that the segment is busy.
pub open spec fn patched_low(entry: u64, base: u64) -> u64 {
    (entry & 0x00FF_FD00_0000_FFFF) | ((base & 0xFF_FFFF) << 16u64) | (((base >> 24u64) & 0xFF)
        << 56u64)
}

/// The second entry with another base address: bits 0 to 31 are the high 32 bits of it.
pub open spec fn patched_high(entry: u64, base: u64) -> u64 {
    (entry & 0xFFFF_FFFF_0000_0000) | (base >> 32u64)
}

/// The base address in the two entries of a task state segment.
pub open spec fn base_in(low: u64, high: u64) -> u64 {
    ((low >> 16u64) & 0xFF_FFFF) | (((low >> 56u64) & 0xFF) << 24u64) | ((high & 0xFFFF_FFFF)
        << 32u64)
}

/// The entries of the task state segment at its virtual address, for a table whose
/// descriptor still holds the physical one. They go to places 5 and 6 of the table.
pub fn switch_gdt_to_virtual(gdt: &GlobalDescriptorTable, tss_virt: u64) -> (r: (u64, u64))
    requires
        gdt_entries(*gdt).len() == 7,
    ensures
        r.0 == patched_low(gdt_entries(*gdt)[5], tss_virt),
        r.1 == patched_high(gdt_entries(*gdt)[6], tss_virt),
{
    let entries: Vec<u64> = raw_entries(gdt);
    let low: u64 = entries[5];
    let high: u64 = entries[6];
    (
        (low & 0x00FF_FD00_0000_FFFF) | ((tss_virt & 0xFF_FFFF) << 16u64) | (((tss_virt >> 24u64)
            & 0xFF) << 56u64),
        (high & 0xFFFF_FFFF_0000_0000) | (tss_virt >> 32u64),
    )
}

/// The base address in the two entries of a task state segment.
pub fn tss_base(low: u64, high: u64) -> (r: u64)
    ensures
        r == base_in(low, high),
{
    ((low >> 16u64) & 0xFF_FFFF) | (((low >> 56u64) & 0xFF) << 24u64) | ((high & 0xFFFF_FFFF)
        << 32u64)
}

/// Patched entries hold the new base address, are not busy, and keep everything else.
pub proof fn law_patch_sets_base(low: u64, high: u64, base: u64)
    ensures
        base_in(patched_low(low, base), patched_high(high, base)) == base,
        patched_low(low, base) & 0x0000_0200_0000_0000 == 0,
        patched_low(low, base) & 0x00FF_FD00_0000_FFFF == low & 0x00FF_FD00_0000_FFFF,
        patched_high(high, base) & 0xFFFF_FFFF_0000_0000 == high & 0xFFFF_FFFF_0000_0000,
{
    let l = patched_low(low, base);
    let h = patched_high(high, base);
    assert((((l >> 16u64) & 0xFF_FFFF) | (((l >> 56u64) & 0xFF) << 24u64) | ((h & 0xFFFF_FFFF)
        << 32u64) == base) && (l & 0x0000_0200_0000_0000 == 0) && (l & 0x00FF_FD00_0000_FFFF == low
        & 0x00FF_FD00_0000_FFFF) && (h & 0xFFFF_FFFF_0000_0000 == high & 0xFFFF_FFFF_0000_0000))
        by (bit_vector)
        requires
            l == (low & 0x00FF_FD00_0000_FFFFu64) | ((base & 0xFF_FFFFu64) << 16u64) | (((base
                >> 24u64) & 0xFFu64) << 56u64),
            h == (high & 0xFFFF_FFFF_0000_0000u64) | (base >> 32u64),
    ;
}

} // verus!
