//! What is reported of a context switch while it is being traced.
use vstd::prelude::*;

use crate::serial;

verus! {

/// What `iretq` pops.
#[derive(Debug, Clone, Copy, PartialEq, Eq, Structural)]
pub struct IretFrame {
    pub rip: u64,
    pub cs: u64,
    pub rflags: u64,
    pub rsp: u64,
    pub ss: u64,
}

/// The two halves of a segment descriptor.
#[derive(Debug, Clone, Copy, PartialEq, Eq, Structural)]
pub struct RawDescriptor {
    pub low: u32,
    pub high: u32,
}

impl RawDescriptor {
    /// The access byte.
    pub open spec fn access(self) -> u32 {
        (self.high / 256) % 256
    }

    /// The privilege level.
    pub open spec fn dpl(self) -> u32 {
        (self.access() / 32) % 4
    }

    /// The type.
    pub open spec fn kind(self) -> u32 {
        self.access() % 16
    }

    /// Whether the segment is present.
    pub open spec fn present(self) -> u32 {
        self.access() / 128
    }
}

/// The table index in a selector.
pub open spec fn index_of(selector: u64) -> u64 {
    (selector / 8) % 8192
}

/// The table index in a selector.
pub fn selector_index(selector: u64) -> (r: u64)
    ensures
        r == index_of(selector),
{
    (selector / 8) % 8192
}

/// One descriptor, by its selector.
pub open spec fn with_dump_gdt(out: Seq<u8>, selector: u64, d: RawDescriptor) -> Seq<u8> {
    out
        + serial::text("  [0x"@)
        + serial::hex_text(selector)
        + serial::text("] lo=0x"@)
        + serial::hex_text(d.low as u64)
        + serial::text(" hi=0x"@)
        + serial::hex_text(d.high as u64)
        + serial::text(" DPL="@)
        + serial::hex_text(d.dpl() as u64)
        + serial::text(" T=0x"@)
        + serial::hex_text(d.kind() as u64)
        + serial::text(" P="@)
        + serial::hex_text(d.present() as u64)
        + serial::line_end()
}

/// Print one descriptor: selector, halves, privilege level, type, present.
pub fn dump_gdt(out: &mut Vec<u8>, selector: u64, d: RawDescriptor)
    ensures
        final(out)@ == with_dump_gdt(old(out)@, selector, d),
{
    serial::write_str(out, "  [0x");
    serial::write_hex(out, selector);
    serial::write_str(out, "] lo=0x");
    serial::write_hex(out, d.low as u64);
    serial::write_str(out, " hi=0x");
    serial::write_hex(out, d.high as u64);
    serial::write_str(out, " DPL=");
    serial::write_hex(out, (((d.high / 256) % 256 / 32) % 4) as u64);
    serial::write_str(out, " T=0x");
    serial::write_hex(out, ((d.high / 256) % 256 % 16) as u64);
    serial::write_str(out, " P=");
    serial::write_hex(out, ((d.high / 256) % 256 / 128) as u64);
    serial::write_nl(out);
}

/// The privilege level, type and presence of a descriptor.
pub open spec fn with_in_range_info(out: Seq<u8>, d: RawDescriptor) -> Seq<u8> {
    out
        + serial::text(" DPL="@)
        + serial::hex_text(d.dpl() as u64)
        + serial::text(" T=0x"@)
        + serial::hex_text(d.kind() as u64)
        + serial::text(" P="@)
        + serial::hex_text(d.present() as u64)
}

/// Print the privilege level, type and presence of a descriptor.
fn in_range_info(out: &mut Vec<u8>, d: RawDescriptor)
    ensures
        final(out)@ == with_in_range_info(old(out)@, d),
{
    serial::write_str(out, " DPL=");
    serial::write_hex(out, (((d.high / 256) % 256 / 32) % 4) as u64);
    serial::write_str(out, " T=0x");
    serial::write_hex(out, ((d.high / 256) % 256 % 16) as u64);
    serial::write_str(out, " P=");
    serial::write_hex(out, ((d.high / 256) % 256 / 128) as u64);
}

/// The same, looked up by index.
pub open spec fn with_dump_gdt_entry_info(out: Seq<u8>, index: u64, d: RawDescriptor) -> Seq<u8> {
    if index >= 128 {
        out + serial::text(" OUT_OF_BOUNDS"@)
    } else {
        with_in_range_info(out, d)
    }
}

/// Print what a descriptor looked up by index is. An index behind the table is only
/// named; `d` does not matter then.
pub fn dump_gdt_entry_info(out: &mut Vec<u8>, index: u64, d: RawDescriptor)
    ensures
        final(out)@ == with_dump_gdt_entry_info(old(out)@, index, d),
{
    if index >= 128 {
        serial::write_str(out, " OUT_OF_BOUNDS");
        return;
    }
    in_range_info(out, d);
}

/// The frame of a new task at `rsp`, before its registers are popped.
pub open spec fn with_dump_frame_before_pop(out: Seq<u8>, rsp: u64, rip: u64, cs: u64, rflags: u64) -> Seq<u8> {
    out
        + serial::text("[FRAME] -- New task frame at "@)
        + serial::hex_text(rsp)
        + serial::line_end()
        + serial::text("[FRAME] RSP after load  = "@)
        + serial::hex_text(rsp)
        + serial::line_end()
        + serial::text("[FRAME] RIP slot addr  = "@)
        + serial::hex_text((rsp + 120) as u64)
        + serial::line_end()
        + serial::text("[FRAME] CS  slot addr  = "@)
        + serial::hex_text((rsp + 128) as u64)
        + serial::line_end()
        + serial::text("[FRAME] RIP slot value = "@)
        + serial::hex_text(rip)
        + serial::line_end()
        + serial::text("[FRAME] CS  slot value = "@)
        + serial::hex_text(cs)
        + serial::text(" (RPL="@)
        + serial::dec_text((cs % 4) as int)
        + serial::text(")"@)
        + serial::line_end()
        + serial::text("[FRAME] RFLAGS slot   = "@)
        + serial::hex_text(rflags)
        + serial::line_end()
        + serial::text("[FRAME] RSP before iretq = "@)
        + serial::hex_text((rsp + 120) as u64)
        + serial::line_end()
        + serial::text("[FRAME] Expected RSP after iretq = "@)
        + serial::hex_text((rsp + 144) as u64)
        + serial::line_end()
        + serial::text("[FRAME] Expected RSP & 0xFFF = "@)
        + serial::hex_text(((rsp + 144) as u64 % 4096))
        + serial::line_end()
}

/// Print the frame that a task is about to be resumed from: where it lies, and its `iretq`
/// slots.
pub fn dump_frame_before_pop(out: &mut Vec<u8>, rsp: u64, rip: u64, cs: u64, rflags: u64)
    requires
        rsp + 144 <= u64::MAX,
    ensures
        final(out)@ == with_dump_frame_before_pop(old(out)@, rsp, rip, cs, rflags),
{
    serial::write_str(out, "[FRAME] -- New task frame at ");
    serial::write_hex(out, rsp);
    serial::write_nl(out);
    serial::write_str(out, "[FRAME] RSP after load  = ");
    serial::write_hex(out, rsp);
    serial::write_nl(out);
    serial::write_str(out, "[FRAME] RIP slot addr  = ");
    serial::write_hex(out, rsp + 120);
    serial::write_nl(out);
    serial::write_str(out, "[FRAME] CS  slot addr  = ");
    serial::write_hex(out, rsp + 128);
    serial::write_nl(out);
    serial::write_str(out, "[FRAME] RIP slot value = ");
    serial::write_hex(out, rip);
    serial::write_nl(out);
    serial::write_str(out, "[FRAME] CS  slot value = ");
    serial::write_hex(out, cs);
    serial::write_str(out, " (RPL=");
    serial::write_u64(out, cs % 4);
    serial::write_str(out, ")");
    serial::write_nl(out);
    serial::write_str(out, "[FRAME] RFLAGS slot   = ");
    serial::write_hex(out, rflags);
    serial::write_nl(out);
    serial::write_str(out, "[FRAME] RSP before iretq = ");
    serial::write_hex(out, rsp + 120);
    serial::write_nl(out);
    serial::write_str(out, "[FRAME] Expected RSP after iretq = ");
    serial::write_hex(out, rsp + 144);
    serial::write_nl(out);
    serial::write_str(out, "[FRAME] Expected RSP & 0xFFF = ");
    serial::write_hex(out, (rsp + 144) % 4096);
    serial::write_nl(out);
}

/// What `iretq` is about to pop.
pub open spec fn with_dump_iret_before_iretq(out: Seq<u8>, f: IretFrame) -> Seq<u8> {
    out
        + serial::text("[IRET-FRAME] RIP=0x"@)
        + serial::hex_text(f.rip)
        + serial::text(" CS=0x"@)
        + serial::hex_text(f.cs)
        + serial::text("(RPL="@)
        + serial::dec_text((f.cs % 4) as int)
        + serial::text(")"@)
        + serial::text(" RFLAGS=0x"@)
        + serial::hex_text(f.rflags)
        + serial::text(" RSP=0x"@)
        + serial::hex_text(f.rsp)
        + serial::text(" SS=0x"@)
        + serial::hex_text(f.ss)
        + serial::text("(RPL="@)
        + serial::dec_text((f.ss % 4) as int)
        + serial::text(")"@)
        + serial::line_end()
}

/// Print what `iretq` is about to pop.
pub fn dump_iret_before_iretq(out: &mut Vec<u8>, f: IretFrame)
    ensures
        final(out)@ == with_dump_iret_before_iretq(old(out)@, f),
{
    serial::write_str(out, "[IRET-FRAME] RIP=0x");
    serial::write_hex(out, f.rip);
    serial::write_str(out, " CS=0x");
    serial::write_hex(out, f.cs);
    serial::write_str(out, "(RPL=");
    serial::write_u64(out, f.cs % 4);
    serial::write_str(out, ")");
    serial::write_str(out, " RFLAGS=0x");
    serial::write_hex(out, f.rflags);
    serial::write_str(out, " RSP=0x");
    serial::write_hex(out, f.rsp);
    serial::write_str(out, " SS=0x");
    serial::write_hex(out, f.ss);
    serial::write_str(out, "(RPL=");
    serial::write_u64(out, f.ss % 4);
    serial::write_str(out, ")");
    serial::write_nl(out);
}

/// The frame at `at`, and the code segment that is in use.
pub open spec fn with_iret_registers(out: Seq<u8>, at: u64, cs: u64, f: IretFrame) -> Seq<u8> {
    out
        + serial::text("[CPU] RSP="@)
        + serial::hex_text(at)
        + serial::text(" CS="@)
        + serial::hex_text(cs)
        + serial::text(" CPL="@)
        + serial::hex_text(cs % 4)
        + serial::line_end()
        + serial::text("[F0] RIP   = 0x"@)
        + serial::hex_text(f.rip)
        + serial::line_end()
        + serial::text("[F1] CS    = 0x"@)
        + serial::hex_text(f.cs)
        + serial::text(" RPL="@)
        + serial::hex_text(f.cs % 4)
        + serial::line_end()
        + serial::text("[F2] RFLAGS= 0x"@)
        + serial::hex_text(f.rflags)
        + serial::line_end()
        + serial::text("[F3] RSP   = 0x"@)
        + serial::hex_text(f.rsp)
        + serial::line_end()
        + serial::text("[F4] SS    = 0x"@)
        + serial::hex_text(f.ss)
        + serial::text(" RPL="@)
        + serial::hex_text(f.ss % 4)
        + serial::line_end()
}

/// Print the frame at `at`, and the code segment that is in use.
fn iret_registers(out: &mut Vec<u8>, at: u64, cs: u64, f: IretFrame)
    ensures
        final(out)@ == with_iret_registers(old(out)@, at, cs, f),
{
    serial::write_str(out, "[CPU] RSP=");
    serial::write_hex(out, at);
    serial::write_str(out, " CS=");
    serial::write_hex(out, cs);
    serial::write_str(out, " CPL=");
    serial::write_hex(out, cs % 4);
    serial::write_nl(out);
    serial::write_str(out, "[F0] RIP   = 0x");
    serial::write_hex(out, f.rip);
    serial::write_nl(out);
    serial::write_str(out, "[F1] CS    = 0x");
    serial::write_hex(out, f.cs);
    serial::write_str(out, " RPL=");
    serial::write_hex(out, f.cs % 4);
    serial::write_nl(out);
    serial::write_str(out, "[F2] RFLAGS= 0x");
    serial::write_hex(out, f.rflags);
    serial::write_nl(out);
    serial::write_str(out, "[F3] RSP   = 0x");
    serial::write_hex(out, f.rsp);
    serial::write_nl(out);
    serial::write_str(out, "[F4] SS    = 0x");
    serial::write_hex(out, f.ss);
    serial::write_str(out, " RPL=");
    serial::write_hex(out, f.ss % 4);
    serial::write_nl(out);
}

/// The descriptors that a resumed task depends on: those of the kernel code, kernel data
/// and task state segments, and those that the frame selects.
#[derive(Debug, Clone, Copy, PartialEq, Eq, Structural)]
pub struct Descriptors {
    pub base: u64,
    pub kernel_code: RawDescriptor,
    pub kernel_data: RawDescriptor,
    pub task_state: RawDescriptor,
    pub frame_code: RawDescriptor,
    pub frame_stack: RawDescriptor,
}

/// A selector of the frame, and the descriptor that it selects.
pub open spec fn with_selected(out: Seq<u8>, title: Seq<char>, selector: u64, d: RawDescriptor) -> Seq<u8> {
    with_dump_gdt_entry_info(
        out + serial::text(title) + serial::hex_text(selector) + serial::text(" idx="@)
            + serial::hex_text(index_of(selector)),
        index_of(selector),
        d,
    ) + serial::line_end()
}

fn selected(out: &mut Vec<u8>, title: &str, selector: u64, d: RawDescriptor)
    ensures
        final(out)@ == with_selected(old(out)@, title@, selector, d),
{
    let index: u64 = selector_index(selector);
    serial::write_str(out, title);
    serial::write_hex(out, selector);
    serial::write_str(out, " idx=");
    serial::write_hex(out, index);
    dump_gdt_entry_info(out, index, d);
    serial::write_nl(out);
}

/// All that decides at which privilege level a task is resumed.
pub open spec fn with_iret_cpl_diagnostics(
    out: Seq<u8>,
    at: u64,
    cs: u64,
    f: IretFrame,
    d: Descriptors,
) -> Seq<u8> {
    let t1 = with_iret_registers(out, at, cs, f) + serial::text("[GDT] base=0x"@)
        + serial::hex_text(d.base) + serial::line_end();
    let t2 = with_dump_gdt(with_dump_gdt(t1, 0x08, d.kernel_code), 0x10, d.kernel_data);
    let t3 = with_dump_gdt(t2, 0x28, d.task_state);
    let t4 = with_selected(t3, "[CS] sel=0x"@, f.cs, d.frame_code);
    with_selected(t4, "[SS] sel=0x"@, f.ss, d.frame_stack) + serial::text("── END ──\n"@)
}

/// Print all that decides at which privilege level a task is resumed.
pub fn print_iret_cpl_diagnostics(
    out: &mut Vec<u8>,
    at: u64,
    cs: u64,
    f: IretFrame,
    d: Descriptors,
)
    ensures
        final(out)@ == with_iret_cpl_diagnostics(old(out)@, at, cs, f, d),
{
    iret_registers(out, at, cs, f);
    serial::write_str(out, "[GDT] base=0x");
    serial::write_hex(out, d.base);
    serial::write_nl(out);
    dump_gdt(out, 0x08, d.kernel_code);
    dump_gdt(out, 0x10, d.kernel_data);
    dump_gdt(out, 0x28, d.task_state);
    selected(out, "[CS] sel=0x", f.cs, d.frame_code);
    selected(out, "[SS] sel=0x", f.ss, d.frame_stack);
    serial::write_str(out, "── END ──\n");
}

} // verus!
