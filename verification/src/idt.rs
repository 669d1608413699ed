//! Exceptions: how a fault is classified, and what is reported of it.
//!
//! A fault in Ring 3 costs the process its life; a fault in Ring 0 halts the system.
use vstd::prelude::*;

use crate::gdt::Selectors;
use crate::serial;

verus! {

/// What the CPU pushed when the exception came.
#[derive(Debug, Clone, Copy, PartialEq, Eq, Structural)]
pub struct FaultFrame {
    pub rip: u64,
    pub cs: u16,
    pub rflags: u64,
    pub rsp: u64,
    pub ss: u16,
}

/// The privilege level of a selector.
pub open spec fn rpl(selector: u64) -> u64 {
    selector % 4
}

/// What is reported of a breakpoint.
pub open spec fn with_breakpoint_handler(out: Seq<u8>, rip: u64) -> Seq<u8> {
    out
        + serial::text("[EXCEPTION] Breakpoint at 0x"@)
        + serial::hex_text(rip)
        + serial::line_end()
}

/// Handle INT3 breakpoints: log and continue.
pub fn breakpoint_handler(out: &mut Vec<u8>, rip: u64)
    ensures
        final(out)@ == with_breakpoint_handler(old(out)@, rip),
{
    serial::write_str(out, "[EXCEPTION] Breakpoint at 0x");
    serial::write_hex(out, rip);
    serial::write_nl(out);
}

/// What is reported of a division error.
pub open spec fn with_divide_error_handler(out: Seq<u8>, rip: u64) -> Seq<u8> {
    out
        + serial::text("━━━━━━━━━━━━━━━━━━━━━━━━━━━━━━━━━━━━━━━━━━━━━━━\n"@)
        + serial::text("[EXCEPTION] #DE Division Error at 0x"@)
        + serial::hex_text(rip)
        + serial::text(" — HALTING\n"@)
        + serial::text("━━━━━━━━━━━━━━━━━━━━━━━━━━━━━━━━━━━━━━━━━━━━━━━\n"@)
}

/// Handle Division Errors: fatal.
pub fn divide_error_handler(out: &mut Vec<u8>, rip: u64)
    ensures
        final(out)@ == with_divide_error_handler(old(out)@, rip),
{
    serial::write_str(out, "━━━━━━━━━━━━━━━━━━━━━━━━━━━━━━━━━━━━━━━━━━━━━━━\n");
    serial::write_str(out, "[EXCEPTION] #DE Division Error at 0x");
    serial::write_hex(out, rip);
    serial::write_str(out, " — HALTING\n");
    serial::write_str(out, "━━━━━━━━━━━━━━━━━━━━━━━━━━━━━━━━━━━━━━━━━━━━━━━\n");
}

/// What is reported of an invalid opcode.
pub open spec fn with_invalid_opcode_handler(out: Seq<u8>, rip: u64) -> Seq<u8> {
    out
        + serial::text("━━━━━━━━━━━━━━━━━━━━━━━━━━━━━━━━━━━━━━━━━━━━━━━\n"@)
        + serial::text("[EXCEPTION] #UD Invalid Opcode at 0x"@)
        + serial::hex_text(rip)
        + serial::text(" — HALTING\n"@)
        + serial::text("━━━━━━━━━━━━━━━━━━━━━━━━━━━━━━━━━━━━━━━━━━━━━━━\n"@)
}

/// Handle Invalid Opcode: fatal.
pub fn invalid_opcode_handler(out: &mut Vec<u8>, rip: u64)
    ensures
        final(out)@ == with_invalid_opcode_handler(old(out)@, rip),
{
    serial::write_str(out, "━━━━━━━━━━━━━━━━━━━━━━━━━━━━━━━━━━━━━━━━━━━━━━━\n");
    serial::write_str(out, "[EXCEPTION] #UD Invalid Opcode at 0x");
    serial::write_hex(out, rip);
    serial::write_str(out, " — HALTING\n");
    serial::write_str(out, "━━━━━━━━━━━━━━━━━━━━━━━━━━━━━━━━━━━━━━━━━━━━━━━\n");
}

/// What is reported of a stack segment fault.
pub open spec fn with_stack_segment_fault_handler(out: Seq<u8>, frame: FaultFrame, error_code: u64) -> Seq<u8> {
    out
        + serial::text("━━━━━━━━━━━━━━━━━━━━━━━━━━━━━━━━━━━━━━━━━━━━━━━\n"@)
        + serial::text("[EXCEPTION] #SS Stack Segment Fault\n"@)
        + serial::text("  Error code : 0x"@)
        + serial::hex_text(error_code)
        + serial::line_end()
        + serial::text("  RIP        : 0x"@)
        + serial::hex_text(frame.rip)
        + serial::line_end()
        + serial::text("  CS         : 0x"@)
        + serial::hex_text(frame.cs as u64)
        + serial::line_end()
        + serial::text("  RFLAGS     : 0x"@)
        + serial::hex_text(frame.rflags)
        + serial::line_end()
        + serial::text("  HALTING\n"@)
        + serial::text("━━━━━━━━━━━━━━━━━━━━━━━━━━━━━━━━━━━━━━━━━━━━━━━\n"@)
}

/// Handle Stack Segment Faults: fatal.
pub fn stack_segment_fault_handler(out: &mut Vec<u8>, frame: FaultFrame, error_code: u64)
    ensures
        final(out)@ == with_stack_segment_fault_handler(old(out)@, frame, error_code),
{
    serial::write_str(out, "━━━━━━━━━━━━━━━━━━━━━━━━━━━━━━━━━━━━━━━━━━━━━━━\n");
    serial::write_str(out, "[EXCEPTION] #SS Stack Segment Fault\n");
    serial::write_str(out, "  Error code : 0x");
    serial::write_hex(out, error_code);
    serial::write_nl(out);
    serial::write_str(out, "  RIP        : 0x");
    serial::write_hex(out, frame.rip);
    serial::write_nl(out);
    serial::write_str(out, "  CS         : 0x");
    serial::write_hex(out, frame.cs as u64);
    serial::write_nl(out);
    serial::write_str(out, "  RFLAGS     : 0x");
    serial::write_hex(out, frame.rflags);
    serial::write_nl(out);
    serial::write_str(out, "  HALTING\n");
    serial::write_str(out, "━━━━━━━━━━━━━━━━━━━━━━━━━━━━━━━━━━━━━━━━━━━━━━━\n");
}

/// What is reported of an invalid task state segment.
pub open spec fn with_invalid_tss_handler(out: Seq<u8>, frame: FaultFrame, error_code: u64) -> Seq<u8> {
    out
        + serial::text("━━━━━━━━━━━━━━━━━━━━━━━━━━━━━━━━━━━━━━━━━━━━━━━\n"@)
        + serial::text("[EXCEPTION] #TS Invalid TSS\n"@)
        + serial::text("  Error code : 0x"@)
        + serial::hex_text(error_code)
        + serial::line_end()
        + serial::text("  RIP        : 0x"@)
        + serial::hex_text(frame.rip)
        + serial::line_end()
        + serial::text("  CS         : 0x"@)
        + serial::hex_text(frame.cs as u64)
        + serial::line_end()
        + serial::text("  RFLAGS     : 0x"@)
        + serial::hex_text(frame.rflags)
        + serial::line_end()
        + serial::text("  HALTING\n"@)
        + serial::text("━━━━━━━━━━━━━━━━━━━━━━━━━━━━━━━━━━━━━━━━━━━━━━━\n"@)
}

/// Handle Invalid TSS: fatal.
pub fn invalid_tss_handler(out: &mut Vec<u8>, frame: FaultFrame, error_code: u64)
    ensures
        final(out)@ == with_invalid_tss_handler(old(out)@, frame, error_code),
{
    serial::write_str(out, "━━━━━━━━━━━━━━━━━━━━━━━━━━━━━━━━━━━━━━━━━━━━━━━\n");
    serial::write_str(out, "[EXCEPTION] #TS Invalid TSS\n");
    serial::write_str(out, "  Error code : 0x");
    serial::write_hex(out, error_code);
    serial::write_nl(out);
    serial::write_str(out, "  RIP        : 0x");
    serial::write_hex(out, frame.rip);
    serial::write_nl(out);
    serial::write_str(out, "  CS         : 0x");
    serial::write_hex(out, frame.cs as u64);
    serial::write_nl(out);
    serial::write_str(out, "  RFLAGS     : 0x");
    serial::write_hex(out, frame.rflags);
    serial::write_nl(out);
    serial::write_str(out, "  HALTING\n");
    serial::write_str(out, "━━━━━━━━━━━━━━━━━━━━━━━━━━━━━━━━━━━━━━━━━━━━━━━\n");
}

/// What is reported of a general protection fault.
pub open spec fn with_gp(out: Seq<u8>, error_code: u64, rip: u64, cs: u64) -> Seq<u8> {
    let head = out
        + serial::text("━━━━━━━━━━━━━━━━━━━━━━━━━━━━━━━━━━━━━━━━━━━━━━━\n"@)
        + serial::text("[EXCEPTION] #GP General Protection Fault\n"@)
        + serial::text("  Error code : 0x"@)
        + serial::hex_text(error_code)
        + serial::line_end()
        + serial::text("  RIP        : 0x"@)
        + serial::hex_text(rip)
        + serial::line_end()
        + serial::text("  CS         : 0x"@)
        + serial::hex_text(cs)
        + serial::text(" (RPL="@)
        + serial::dec_text(rpl(cs) as int)
        + serial::text(")\n"@);
    if rpl(cs) == 3 {
        head + serial::text("  USER FAULT: killing process\n"@)
    } else {
        head + serial::text("  KERNEL FAULT: halting\n"@)
    }
}

/// Classify a general protection fault by the privilege level of its code segment: 1 for
/// a user fault (kill the process), 0 for a kernel fault (halt).
pub fn gp_classify(out: &mut Vec<u8>, error_code: u64, rip: u64, cs: u64) -> (r: u64)
    ensures
        r == if rpl(cs) == 3 {
            1u64
        } else {
            0
        },
        final(out)@ == with_gp(old(out)@, error_code, rip, cs),
{
    serial::write_str(out, "━━━━━━━━━━━━━━━━━━━━━━━━━━━━━━━━━━━━━━━━━━━━━━━\n");
    serial::write_str(out, "[EXCEPTION] #GP General Protection Fault\n");
    serial::write_str(out, "  Error code : 0x");
    serial::write_hex(out, error_code);
    serial::write_nl(out);
    serial::write_str(out, "  RIP        : 0x");
    serial::write_hex(out, rip);
    serial::write_nl(out);
    serial::write_str(out, "  CS         : 0x");
    serial::write_hex(out, cs);
    serial::write_str(out, " (RPL=");
    serial::write_u64(out, cs % 4);
    serial::write_str(out, ")\n");
    if cs % 4 == 3 {
        serial::write_str(out, "  USER FAULT: killing process\n");
        1
    } else {
        serial::write_str(out, "  KERNEL FAULT: halting\n");
        0
    }
}

/// What more is reported of a general protection fault in the kernel.
pub open spec fn with_gp_print_diag(out: Seq<u8>, cr3: u64, rsp: u64) -> Seq<u8> {
    out
        + serial::text("  CR3       : 0x"@)
        + serial::hex_text(cr3)
        + serial::line_end()
        + serial::text("  RSP       : 0x"@)
        + serial::hex_text(rsp)
        + serial::line_end()
        + serial::text("  HALTING\n"@)
        + serial::text("━━━━━━━━━━━━━━━━━━━━━━━━━━━━━━━━━━━━━━━━━━━━━━━\n"@)
}

/// Print additional diagnostics for kernel faults, before halting.
pub fn gp_print_diag(out: &mut Vec<u8>, cr3: u64, rsp: u64)
    ensures
        final(out)@ == with_gp_print_diag(old(out)@, cr3, rsp),
{
    serial::write_str(out, "  CR3       : 0x");
    serial::write_hex(out, cr3);
    serial::write_nl(out);
    serial::write_str(out, "  RSP       : 0x");
    serial::write_hex(out, rsp);
    serial::write_nl(out);
    serial::write_str(out, "  HALTING\n");
    serial::write_str(out, "━━━━━━━━━━━━━━━━━━━━━━━━━━━━━━━━━━━━━━━━━━━━━━━\n");
}

/// A word of the report, if it applies.
pub open spec fn with_word(out: Seq<u8>, applies: bool, word: Seq<char>) -> Seq<u8> {
    if applies {
        out + serial::text(word)
    } else {
        out
    }
}

fn write_word(out: &mut Vec<u8>, applies: bool, word: &str)
    ensures
        final(out)@ == with_word(old(out)@, applies, word@),
{
    if applies {
        serial::write_str(out, word);
    }
}

/// The error code of a page fault in words.
pub open spec fn with_page_fault_error(out: Seq<u8>, error_code: u64) -> Seq<u8> {
    let t1 = with_word(out, error_code % 2 == 1, " prot_viol"@);
    let t2 = with_word(t1, error_code / 2 % 2 == 1, " write"@);
    let t3 = with_word(t2, error_code / 2 % 2 == 0, " read"@);
    let t4 = with_word(t3, error_code / 4 % 2 == 1, " user"@);
    let t5 = with_word(t4, error_code / 8 % 2 == 1, " NX"@);
    with_word(t5, error_code / 16 % 2 == 1, " reserved"@) + serial::line_end()
}

fn write_page_fault_error(out: &mut Vec<u8>, error_code: u64)
    ensures
        final(out)@ == with_page_fault_error(old(out)@, error_code),
{
    write_word(out, error_code % 2 == 1, " prot_viol");
    write_word(out, error_code / 2 % 2 == 1, " write");
    write_word(out, error_code / 2 % 2 == 0, " read");
    write_word(out, error_code / 4 % 2 == 1, " user");
    write_word(out, error_code / 8 % 2 == 1, " NX");
    write_word(out, error_code / 16 % 2 == 1, " reserved");
    serial::write_nl(out);
}

/// What is reported of a page fault.
pub open spec fn with_page_fault(
    out: Seq<u8>,
    error_code: u64,
    cr2: u64,
    rip: u64,
    cs: u64,
) -> Seq<u8> {
    let head = out
        + serial::text("!! PAGE FAULT !!"@)
        + serial::line_end()
        + serial::text("  CR2="@)
        + serial::hex_text(cr2)
        + serial::line_end()
        + serial::text("  RIP="@)
        + serial::hex_text(rip)
        + serial::line_end()
        + serial::text("  CS="@)
        + serial::hex_text(cs)
        + serial::text(" RPL="@)
        + serial::hex_text(rpl(cs))
        + serial::line_end()
        + serial::text("  err="@)
        + serial::hex_text(error_code);
    with_page_fault_error(head, error_code) + serial::text(
        if rpl(cs) == 3 {
            "  USER FAULT: killing process"@
        } else {
            "  KERNEL FAULT: halting"@
        },
    ) + serial::line_end()
}

/// Classify a page fault by the privilege level of its code segment: 1 for a user fault
/// (kill the process and go on with the next), 0 for a kernel fault (halt).
pub fn page_fault_classify(out: &mut Vec<u8>, error_code: u64, cr2: u64, rip: u64, cs: u64) -> (r:
    u64)
    ensures
        r == if rpl(cs) == 3 {
            1u64
        } else {
            0
        },
        final(out)@ == with_page_fault(old(out)@, error_code, cr2, rip, cs),
{
    serial::write_str(out, "!! PAGE FAULT !!");
    serial::write_nl(out);
    serial::write_str(out, "  CR2=");
    serial::write_hex(out, cr2);
    serial::write_nl(out);
    serial::write_str(out, "  RIP=");
    serial::write_hex(out, rip);
    serial::write_nl(out);
    serial::write_str(out, "  CS=");
    serial::write_hex(out, cs);
    serial::write_str(out, " RPL=");
    serial::write_hex(out, cs % 4);
    serial::write_nl(out);
    serial::write_str(out, "  err=");
    serial::write_hex(out, error_code);
    write_page_fault_error(out, error_code);
    if cs % 4 == 3 {
        serial::write_str_nl(out, "  USER FAULT: killing process");
        1
    } else {
        serial::write_str_nl(out, "  KERNEL FAULT: halting");
        0
    }
}

/// The registers at the time of a double fault.
#[derive(Debug, Clone, Copy, PartialEq, Eq, Structural)]
pub struct DoubleFault {
    pub frame: FaultFrame,
    pub error_code: u64,
    pub cr2: u64,
    pub cr3: u64,
    pub cs: u16,
    pub ss: u16,
}

/// What the context switch recorded last, for a report in debug mode. `words` is what
/// the stack held from `rsp_before` on, if that is not 0.
pub struct SwitchTrace {
    pub saved_rsp: u64,
    pub rsp_after_load: u64,
    pub rsp_before: u64,
    pub expected: u64,
    pub cs_in_frame: u64,
    pub rip_in_frame: u64,
    pub words: [u64; 20],
    pub selectors: Selectors,
}

/// The frame of a double fault.
pub open spec fn with_df_frame(out: Seq<u8>, f: DoubleFault) -> Seq<u8> {
    out
        + serial::text("━━━━━━━━━━━━━━━━━━━━━━━━━━━━━━━━━━━━━━━━━━━━━━━\n"@)
        + serial::text("[EXCEPTION] *** DOUBLE FAULT ***\n"@)
        + serial::text("  DF error code : 0x"@)
        + serial::hex_text(f.error_code)
        + serial::line_end()
        + serial::text("  ── DF frame (CPU-pushed on IST) ──\n"@)
        + serial::text("  RIP     : 0x"@)
        + serial::hex_text(f.frame.rip)
        + serial::line_end()
        + serial::text("  CS      : 0x"@)
        + serial::hex_text(f.frame.cs as u64)
        + serial::text("  (RPL="@)
        + serial::dec_text(f.frame.cs as int % 4)
        + serial::text(")\n"@)
}

fn write_df_frame(out: &mut Vec<u8>, f: DoubleFault)
    ensures
        final(out)@ == with_df_frame(old(out)@, f),
{
    serial::write_str(out, "━━━━━━━━━━━━━━━━━━━━━━━━━━━━━━━━━━━━━━━━━━━━━━━\n");
    serial::write_str(out, "[EXCEPTION] *** DOUBLE FAULT ***\n");
    serial::write_str(out, "  DF error code : 0x");
    serial::write_hex(out, f.error_code);
    serial::write_nl(out);
    serial::write_str(out, "  ── DF frame (CPU-pushed on IST) ──\n");
    serial::write_str(out, "  RIP     : 0x");
    serial::write_hex(out, f.frame.rip);
    serial::write_nl(out);
    serial::write_str(out, "  CS      : 0x");
    serial::write_hex(out, f.frame.cs as u64);
    serial::write_str(out, "  (RPL=");
    serial::write_u64(out, (f.frame.cs % 4) as u64);
    serial::write_str(out, ")\n");
}

/// The registers of a double fault.
pub open spec fn with_df_registers(out: Seq<u8>, f: DoubleFault) -> Seq<u8> {
    out
        + serial::text("  RFLAGS  : 0x"@)
        + serial::hex_text(f.frame.rflags)
        + serial::line_end()
        + serial::text("  RSP     : 0x"@)
        + serial::hex_text(f.frame.rsp)
        + serial::line_end()
        + serial::text("  SS      : 0x"@)
        + serial::hex_text(f.frame.ss as u64)
        + serial::line_end()
        + serial::text("  CR2     : 0x"@)
        + serial::hex_text(f.cr2)
        + serial::line_end()
        + serial::text("  CR3     : 0x"@)
        + serial::hex_text(f.cr3)
        + serial::line_end()
}

fn write_df_registers(out: &mut Vec<u8>, f: DoubleFault)
    ensures
        final(out)@ == with_df_registers(old(out)@, f),
{
    serial::write_str(out, "  RFLAGS  : 0x");
    serial::write_hex(out, f.frame.rflags);
    serial::write_nl(out);
    serial::write_str(out, "  RSP     : 0x");
    serial::write_hex(out, f.frame.rsp);
    serial::write_nl(out);
    serial::write_str(out, "  SS      : 0x");
    serial::write_hex(out, f.frame.ss as u64);
    serial::write_nl(out);
    serial::write_str(out, "  CR2     : 0x");
    serial::write_hex(out, f.cr2);
    serial::write_nl(out);
    serial::write_str(out, "  CR3     : 0x");
    serial::write_hex(out, f.cr3);
    serial::write_nl(out);
}

/// The segments during a double fault.
pub open spec fn with_df_segments(out: Seq<u8>, f: DoubleFault) -> Seq<u8> {
    out
        + serial::text("  CS (actual) : 0x"@)
        + serial::hex_text(f.cs as u64)
        + serial::text("  (RPL="@)
        + serial::dec_text(f.cs as int % 4)
        + serial::text(")\n"@)
        + serial::text("  SS (actual) : 0x"@)
        + serial::hex_text(f.ss as u64)
        + serial::text("  (RPL="@)
        + serial::dec_text(f.ss as int % 4)
        + serial::text(")\n"@)
}

fn write_df_segments(out: &mut Vec<u8>, f: DoubleFault)
    ensures
        final(out)@ == with_df_segments(old(out)@, f),
{
    serial::write_str(out, "  CS (actual) : 0x");
    serial::write_hex(out, f.cs as u64);
    serial::write_str(out, "  (RPL=");
    serial::write_u64(out, (f.cs % 4) as u64);
    serial::write_str(out, ")\n");
    serial::write_str(out, "  SS (actual) : 0x");
    serial::write_hex(out, f.ss as u64);
    serial::write_str(out, "  (RPL=");
    serial::write_u64(out, (f.ss % 4) as u64);
    serial::write_str(out, ")\n");
}

/// What the frame and the fault address suggest.
pub open spec fn with_df_hints(out: Seq<u8>, f: DoubleFault) -> Seq<u8> {
    let t = out + serial::text(
        if f.frame.cs % 4 == 3 {
            "  DF CPL=3: RSP/SS in DF frame are from Ring 3 transition\n"@
        } else {
            "  DF CPL=0: RSP/SS in DF frame may be garbage (no CPL change to DF)\n"@
        },
    );
    if f.cr2 == 0xFFFF_FFFF_FFFF_FFF8 {
        t + serial::text("  CR2 = 0x...F8 = 0x0 - 8: push at RSP=0x0\n"@)
    } else if f.cr2 == 0 {
        t + serial::text("  CR2 = 0x0: null deref or RSP was 0\n"@)
    } else {
        t
    }
}

fn write_df_hints(out: &mut Vec<u8>, f: DoubleFault)
    ensures
        final(out)@ == with_df_hints(old(out)@, f),
{
    serial::write_str(
        out,
        if f.frame.cs % 4 == 3 {
            "  DF CPL=3: RSP/SS in DF frame are from Ring 3 transition\n"
        } else {
            "  DF CPL=0: RSP/SS in DF frame may be garbage (no CPL change to DF)\n"
        },
    );
    if f.cr2 == 0xFFFF_FFFF_FFFF_FFF8 {
        serial::write_str(out, "  CR2 = 0x...F8 = 0x0 - 8: push at RSP=0x0\n");
    } else if f.cr2 == 0 {
        serial::write_str(out, "  CR2 = 0x0: null deref or RSP was 0\n");
    }
}

/// The registers that the context switch recorded.
pub open spec fn with_df_captured(out: Seq<u8>, t: &SwitchTrace) -> Seq<u8> {
    out
        + serial::text("  ── Captured diagnostics ──\n"@)
        + serial::text("  SAVED_RSP (into schedule)  : 0x"@)
        + serial::hex_text(t.saved_rsp)
        + serial::line_end()
        + serial::text("  RSP_AFTER_LOAD (mov rsp,r12): 0x"@)
        + serial::hex_text(t.rsp_after_load)
        + serial::line_end()
        + serial::text("  RIP_IN_FRAME (before pops) : 0x"@)
        + serial::hex_text(t.rip_in_frame)
        + serial::line_end()
}

fn write_df_captured(out: &mut Vec<u8>, t: &SwitchTrace)
    ensures
        final(out)@ == with_df_captured(old(out)@, t),
{
    serial::write_str(out, "  ── Captured diagnostics ──\n");
    serial::write_str(out, "  SAVED_RSP (into schedule)  : 0x");
    serial::write_hex(out, t.saved_rsp);
    serial::write_nl(out);
    serial::write_str(out, "  RSP_AFTER_LOAD (mov rsp,r12): 0x");
    serial::write_hex(out, t.rsp_after_load);
    serial::write_nl(out);
    serial::write_str(out, "  RIP_IN_FRAME (before pops) : 0x");
    serial::write_hex(out, t.rip_in_frame);
    serial::write_nl(out);
}

/// The frame that the context switch recorded.
pub open spec fn with_df_captured_frame(out: Seq<u8>, t: &SwitchTrace) -> Seq<u8> {
    out
        + serial::text("  CS_IN_FRAME  (before pops) : 0x"@)
        + serial::hex_text(t.cs_in_frame)
        + serial::text("  (RPL="@)
        + serial::dec_text(rpl(t.cs_in_frame) as int)
        + serial::text(")\n"@)
        + serial::text("  RSP_BEFORE_IRETQ           : 0x"@)
        + serial::hex_text(t.rsp_before)
        + serial::line_end()
        + serial::text("  EXPECTED_RSP (after iretq) : 0x"@)
        + serial::hex_text(t.expected)
        + serial::line_end()
}

fn write_df_captured_frame(out: &mut Vec<u8>, t: &SwitchTrace)
    ensures
        final(out)@ == with_df_captured_frame(old(out)@, t),
{
    serial::write_str(out, "  CS_IN_FRAME  (before pops) : 0x");
    serial::write_hex(out, t.cs_in_frame);
    serial::write_str(out, "  (RPL=");
    serial::write_u64(out, t.cs_in_frame % 4);
    serial::write_str(out, ")\n");
    serial::write_str(out, "  RSP_BEFORE_IRETQ           : 0x");
    serial::write_hex(out, t.rsp_before);
    serial::write_nl(out);
    serial::write_str(out, "  EXPECTED_RSP (after iretq) : 0x");
    serial::write_hex(out, t.expected);
    serial::write_nl(out);
}

/// What a word of the return frame is.
pub open spec fn with_word_meaning(out: Seq<u8>, i: int, value: u64) -> Seq<u8> {
    if i == 0 {
        out + serial::text("  ← IRET RIP\n"@)
    } else if i == 1 {
        out + serial::text("  ← IRET CS (RPL="@) + serial::dec_text(rpl(value) as int) + serial::text(
            if rpl(value) == 0 {
                ") RPL=0!\n"@
            } else if rpl(value) == 3 {
                ") RPL=3\n"@
            } else {
                ")\n"@
            },
        )
    } else if i == 2 {
        out + serial::text("  ← IRET RFLAGS\n"@)
    } else if i == 3 {
        out + serial::text("  ← [rsp+24] = new RSP if CPL change\n"@)
    } else if i == 4 {
        out + serial::text("  ← [rsp+32] = new SS if CPL change\n"@)
    } else {
        out + serial::text("\n"@)
    }
}

fn write_word_meaning(out: &mut Vec<u8>, i: usize, value: u64)
    ensures
        final(out)@ == with_word_meaning(old(out)@, i as int, value),
{
    if i == 0 {
        serial::write_str(out, "  ← IRET RIP\n");
    } else if i == 1 {
        serial::write_str(out, "  ← IRET CS (RPL=");
        serial::write_u64(out, value % 4);
        serial::write_str(
            out,
            if value % 4 == 0 {
                ") RPL=0!\n"
            } else if value % 4 == 3 {
                ") RPL=3\n"
            } else {
                ")\n"
            },
        );
    } else if i == 2 {
        serial::write_str(out, "  ← IRET RFLAGS\n");
    } else if i == 3 {
        serial::write_str(out, "  ← [rsp+24] = new RSP if CPL change\n");
    } else if i == 4 {
        serial::write_str(out, "  ← [rsp+32] = new SS if CPL change\n");
    } else {
        serial::write_str(out, "\n");
    }
}

/// The first `n` words of the return frame.
pub open spec fn with_words(out: Seq<u8>, t: &SwitchTrace, n: int) -> Seq<u8>
    decreases n,
{
    if n <= 0 {
        out
    } else {
        let rest = with_words(out, t, n - 1);
        let line = rest + serial::text("    [0x"@) + serial::hex_text(
            (t.rsp_before + (n - 1) * 8) as u64,
        ) + serial::text("] = 0x"@) + serial::hex_text(t.words@[n - 1]);
        with_word_meaning(line, n - 1, t.words@[n - 1])
    }
}

/// Whether the frame was still what the context switch had recorded.
pub open spec fn with_cross_check(out: Seq<u8>, t: &SwitchTrace) -> Seq<u8> {
    out
        + serial::text("  ── CS cross-check ──\n"@)
        + serial::text("  CS_IN_FRAME (dumped before pops) : 0x"@)
        + serial::hex_text(t.cs_in_frame)
        + serial::line_end()
        + serial::text("  CS at RSP_BEFORE_IRETQ+8 (memory): 0x"@)
        + serial::hex_text(t.words@[1])
        + serial::line_end()
        + serial::text(
        if t.cs_in_frame == t.words@[1] {
            "  MATCH — frame was not corrupted between dump and iretq\n"@
        } else {
            "  MISMATCH — frame WAS corrupted between dump and iretq!\n"@
        },
    )
}

fn write_cross_check(out: &mut Vec<u8>, t: &SwitchTrace)
    ensures
        final(out)@ == with_cross_check(old(out)@, t),
{
    serial::write_str(out, "  ── CS cross-check ──\n");
    serial::write_str(out, "  CS_IN_FRAME (dumped before pops) : 0x");
    serial::write_hex(out, t.cs_in_frame);
    serial::write_nl(out);
    serial::write_str(out, "  CS at RSP_BEFORE_IRETQ+8 (memory): 0x");
    serial::write_hex(out, t.words[1]);
    serial::write_nl(out);
    serial::write_str(
        out,
        if t.cs_in_frame == t.words[1] {
            "  MATCH — frame was not corrupted between dump and iretq\n"
        } else {
            "  MISMATCH — frame WAS corrupted between dump and iretq!\n"
        },
    );
}

/// What the return does with the stack pointer.
pub open spec fn with_return(out: Seq<u8>, t: &SwitchTrace) -> Seq<u8> {
    if rpl(t.cs_in_frame) == 0 {
        out + serial::text(
            "  CS RPL=0 → same-privilege iretq: pops RIP/CS/RFLAGS only (3*8=24)\n"@,
        ) + serial::text("  New RSP = RSP_BEFORE_IRETQ + 24 = 0x"@) + serial::hex_text(
            (t.rsp_before + 24) as u64,
        ) + serial::line_end()
    } else if rpl(t.cs_in_frame) == 3 {
        out + serial::text(
            "  CS RPL=3 → outer-privilege iretq: pops RIP/CS/RFLAGS/RSP/SS (5*8=40)\n"@,
        ) + serial::text("  New RSP from [rsp+24] = 0x"@) + serial::hex_text(t.words@[3])
            + serial::line_end()
    } else {
        out + serial::text("  CS RPL="@) + serial::dec_text(rpl(t.cs_in_frame) as int)
            + serial::text(" → unexpected\n"@)
    }
}

fn write_return(out: &mut Vec<u8>, t: &SwitchTrace)
    requires
        t.rsp_before + 160 <= u64::MAX,
    ensures
        final(out)@ == with_return(old(out)@, t),
{
    if t.cs_in_frame % 4 == 0 {
        serial::write_str(
            out,
            "  CS RPL=0 → same-privilege iretq: pops RIP/CS/RFLAGS only (3*8=24)\n",
        );
        serial::write_str(out, "  New RSP = RSP_BEFORE_IRETQ + 24 = 0x");
        serial::write_hex(out, t.rsp_before + 24);
        serial::write_nl(out);
    } else if t.cs_in_frame % 4 == 3 {
        serial::write_str(
            out,
            "  CS RPL=3 → outer-privilege iretq: pops RIP/CS/RFLAGS/RSP/SS (5*8=40)\n",
        );
        serial::write_str(out, "  New RSP from [rsp+24] = 0x");
        serial::write_hex(out, t.words[3]);
        serial::write_nl(out);
    } else {
        serial::write_str(out, "  CS RPL=");
        serial::write_u64(out, t.cs_in_frame % 4);
        serial::write_str(out, " → unexpected\n");
    }
}

/// The stack before the return, if it was recorded.
pub open spec fn with_stack(out: Seq<u8>, t: &SwitchTrace) -> Seq<u8> {
    if t.rsp_before == 0 {
        out + serial::text("  RSP_BEFORE_IRETQ = 0 → naked handler never saved it\n"@)
    } else {
        let head = out
            + serial::text("  ── 20 qwords at RSP_BEFORE_IRETQ=0x"@)
            + serial::hex_text(t.rsp_before)
            + serial::text(" ──\n"@);
        with_return(with_cross_check(with_words(head, t, 20), t), t)
    }
}

fn write_stack(out: &mut Vec<u8>, t: &SwitchTrace)
    requires
        t.rsp_before + 160 <= u64::MAX,
    ensures
        final(out)@ == with_stack(old(out)@, t),
{
    if t.rsp_before == 0 {
        serial::write_str(out, "  RSP_BEFORE_IRETQ = 0 → naked handler never saved it\n");
        return;
    }
    serial::write_str(out, "  ── 20 qwords at RSP_BEFORE_IRETQ=0x");
    serial::write_hex(out, t.rsp_before);
    serial::write_str(out, " ──\n");
    let ghost head = out@;
    let mut i: usize = 0;
    while i < 20
        invariant
            i <= 20,
            t.rsp_before + 160 <= u64::MAX,
            out@ == with_words(head, t, i as int),
        decreases 20 - i,
    {
        let value: u64 = t.words[i];
        serial::write_str(out, "    [0x");
        serial::write_hex(out, t.rsp_before + i as u64 * 8);
        serial::write_str(out, "] = 0x");
        serial::write_hex(out, value);
        write_word_meaning(out, i, value);
        i = i + 1;
    }
    write_cross_check(out, t);
    write_return(out, t);
}

/// A selector, its index and its privilege level.
pub open spec fn with_selector(out: Seq<u8>, label: Seq<char>, selector: u16) -> Seq<u8> {
    out
        + serial::text(label)
        + serial::hex_text(selector as u64)
        + serial::text(" (idx="@)
        + serial::dec_text(selector as int / 8)
        + serial::text(" RPL="@)
        + serial::dec_text(selector as int % 4)
        + serial::text(")\n"@)
}

fn write_selector(out: &mut Vec<u8>, label: &str, selector: u16)
    ensures
        final(out)@ == with_selector(old(out)@, label@, selector),
{
    serial::write_str(out, label);
    serial::write_hex(out, selector as u64);
    serial::write_str(out, " (idx=");
    serial::write_u64(out, (selector / 8) as u64);
    serial::write_str(out, " RPL=");
    serial::write_u64(out, (selector % 4) as u64);
    serial::write_str(out, ")\n");
}

/// The selectors, and where the frame comes from.
pub open spec fn with_origin(out: Seq<u8>, s: Selectors) -> Seq<u8> {
    let t1 = out + serial::text("  ── GDT selectors ──\n"@);
    let t2 = with_selector(t1, "  kernel_code : 0x"@, s.kernel_code);
    let t3 = with_selector(t2, "  user_code   : 0x"@, s.user_code);
    let t4 = with_selector(t3, "  user_data   : 0x"@, s.user_data);
    t4 + serial::text("  ── Frame origin ──\n"@) + serial::text(
        "  Timer handler: NO IST (vector 32 has no IST index set)\n"@,
    ) + serial::text(
        "  IRET frame: manually constructed by setup_initial_stack_frame_kernel\n"@,
    ) + serial::text(
        "  NOT a CPU-pushed interrupt frame — CS/RIP/RFLAGS written by Rust code\n"@,
    )
}

fn write_origin(out: &mut Vec<u8>, s: Selectors)
    ensures
        final(out)@ == with_origin(old(out)@, s),
{
    serial::write_str(out, "  ── GDT selectors ──\n");
    write_selector(out, "  kernel_code : 0x", s.kernel_code);
    write_selector(out, "  user_code   : 0x", s.user_code);
    write_selector(out, "  user_data   : 0x", s.user_data);
    serial::write_str(out, "  ── Frame origin ──\n");
    serial::write_str(out, "  Timer handler: NO IST (vector 32 has no IST index set)\n");
    serial::write_str(
        out,
        "  IRET frame: manually constructed by setup_initial_stack_frame_kernel\n",
    );
    serial::write_str(
        out,
        "  NOT a CPU-pushed interrupt frame — CS/RIP/RFLAGS written by Rust code\n",
    );
}

/// What is reported of a double fault.
pub open spec fn with_double_fault(
    out: Seq<u8>,
    f: DoubleFault,
    trace: Option<&SwitchTrace>,
) -> Seq<u8> {
    let t1 = with_df_segments(with_df_registers(with_df_frame(out, f), f), f);
    let t2 = with_df_hints(t1, f);
    let t3 = match trace {
        Some(t) => with_origin(with_stack(with_df_captured_frame(with_df_captured(t2, t), t), t), t.selectors),
        None => t2,
    };
    t3 + serial::text("━━━━━━━━━━━━━━━━━━━━━━━━━━━━━━━━━━━━━━━━━━━━━━━\n"@) + serial::text(
        "  SYSTEM HALTED — cannot recover from double fault\n"@,
    )
}

/// Handle Double Faults: fatal, always. The report says what the CPU pushed, what the
/// registers hold and, in debug mode, what the last context switch recorded.
pub fn double_fault_handler(out: &mut Vec<u8>, f: DoubleFault, trace: Option<&SwitchTrace>)
    requires
        trace matches Some(t) ==> t.rsp_before + 160 <= u64::MAX,
    ensures
        final(out)@ == with_double_fault(old(out)@, f, trace),
{
    write_df_frame(out, f);
    write_df_registers(out, f);
    write_df_segments(out, f);
    write_df_hints(out, f);
    match trace {
        Some(t) => {
            write_df_captured(out, t);
            write_df_captured_frame(out, t);
            write_stack(out, t);
            write_origin(out, t.selectors);
        },
        None => {},
    }
    serial::write_str(out, "━━━━━━━━━━━━━━━━━━━━━━━━━━━━━━━━━━━━━━━━━━━━━━━\n");
    serial::write_str(out, "  SYSTEM HALTED — cannot recover from double fault\n");
}

} // verus!
