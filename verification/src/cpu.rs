//! CPU features: what CPUID reports, and the control registers that follow from it.
use vstd::prelude::*;

use crate::serial;

verus! {

/// CPU feature flags.
#[derive(Debug, Clone, Copy, PartialEq, Eq, Structural)]
pub struct CpuFeatures {
    pub nx: bool,
    pub smep: bool,
    pub smap: bool,
    pub pat: bool,
    pub apic: bool,
    pub sep: bool,
    pub syscall: bool,
    pub mmx: bool,
    pub sse: bool,
    pub sse2: bool,
    pub sse3: bool,
    pub ssse3: bool,
    pub sse4_1: bool,
    pub sse4_2: bool,
    pub avx: bool,
    pub avx2: bool,
    pub fsgsbase: bool,
    pub tsc_deadline: bool,
    pub rdtscp: bool,
    pub invariant_tsc: bool,
    pub maxphyaddr: u8,
}

/// The registers of the CPUID leaves that are looked at.
#[derive(Debug, Clone, Copy, PartialEq, Eq, Structural)]
pub struct Cpuid {
    /// Leaf 0, EAX: the highest leaf.
    pub max_leaf: u32,
    /// Leaf 1, EBX.
    pub ebx: u32,
    /// Leaf 1, ECX.
    pub ecx: u32,
    /// Leaf 1, EDX.
    pub edx: u32,
    /// Leaf 7, EBX. Not looked at if there is no such leaf.
    pub structured_ebx: u32,
    /// Leaf 0x80000001, EDX.
    pub ext_edx: u32,
    /// Leaf 0x80000007, EDX.
    pub power_edx: u32,
    /// Leaf 0x80000008, EAX.
    pub address_eax: u32,
}

/// Whether the bit with the given weight is set.
#[verifier::opaque]
pub open spec fn bit(value: u32, weight: u32) -> bool {
    value / weight % 2 == 1
}

/// What the leaves say of the CPU.
pub open spec fn features_of(f: CpuFeatures, id: Cpuid) -> bool {
    &&& f.nx == bit(id.ext_edx, 0x0010_0000)
    &&& f.pat == bit(id.edx, 0x0001_0000)
    &&& f.apic == bit(id.edx, 0x0000_0200)
    &&& f.sep == bit(id.edx, 0x0000_0800)
    &&& f.syscall == bit(id.edx, 0x0000_0800)
    &&& f.mmx == bit(id.edx, 0x0080_0000)
    &&& f.sse == bit(id.edx, 0x0200_0000)
    &&& f.sse2 == bit(id.edx, 0x0400_0000)
    &&& f.sse3 == bit(id.ecx, 0x0000_0001)
    &&& f.ssse3 == bit(id.ecx, 0x0000_0200)
    &&& f.sse4_1 == bit(id.ecx, 0x0008_0000)
    &&& f.sse4_2 == bit(id.ecx, 0x0010_0000)
    &&& f.avx == bit(id.ecx, 0x1000_0000)
    &&& f.fsgsbase == bit(id.ebx, 0x0000_0001)
    &&& f.tsc_deadline == bit(id.ecx, 0x0100_0000)
    &&& f.rdtscp == bit(id.ext_edx, 0x0800_0000)
    &&& f.invariant_tsc == bit(id.power_edx, 0x0000_0100)
    &&& f.smep == (id.max_leaf >= 7 && bit(id.structured_ebx, 0x0000_0080))
    &&& f.smap == (id.max_leaf >= 7 && bit(id.structured_ebx, 0x0010_0000))
    &&& f.avx2 == (id.max_leaf >= 7 && bit(id.structured_ebx, 0x0000_0020))
    &&& f.maxphyaddr == id.address_eax % 0x100
}

fn has_bit(value: u32, weight: u32) -> (r: bool)
    requires
        weight > 0,
    ensures
        r == bit(value, weight),
{
    reveal(bit);
    value / weight % 2 == 1
}

/// Detect all CPU features.
pub fn detect(id: Cpuid) -> (r: CpuFeatures)
    ensures
        features_of(r, id),
{
    let nx: bool = has_bit(id.ext_edx, 0x0010_0000);
    let pat: bool = has_bit(id.edx, 0x0001_0000);
    let apic: bool = has_bit(id.edx, 0x0000_0200);
    let sep: bool = has_bit(id.edx, 0x0000_0800);
    let syscall: bool = has_bit(id.edx, 0x0000_0800);
    let mmx: bool = has_bit(id.edx, 0x0080_0000);
    let sse: bool = has_bit(id.edx, 0x0200_0000);
    let sse2: bool = has_bit(id.edx, 0x0400_0000);
    let sse3: bool = has_bit(id.ecx, 0x0000_0001);
    let ssse3: bool = has_bit(id.ecx, 0x0000_0200);
    let sse4_1: bool = has_bit(id.ecx, 0x0008_0000);
    let sse4_2: bool = has_bit(id.ecx, 0x0010_0000);
    let avx: bool = has_bit(id.ecx, 0x1000_0000);
    let fsgsbase: bool = has_bit(id.ebx, 0x0000_0001);
    let tsc_deadline: bool = has_bit(id.ecx, 0x0100_0000);
    let rdtscp: bool = has_bit(id.ext_edx, 0x0800_0000);
    let invariant_tsc: bool = has_bit(id.power_edx, 0x0000_0100);
    let smep: bool = has_bit(id.structured_ebx, 0x0000_0080);
    let smap: bool = has_bit(id.structured_ebx, 0x0010_0000);
    let avx2: bool = has_bit(id.structured_ebx, 0x0000_0020);
    let structured: bool = id.max_leaf >= 7;
    let maxphyaddr: u8 = (id.address_eax % 0x100) as u8;
    CpuFeatures {
        nx,
        pat,
        apic,
        sep,
        syscall,
        mmx,
        sse,
        sse2,
        sse3,
        ssse3,
        sse4_1,
        sse4_2,
        avx,
        fsgsbase,
        tsc_deadline,
        rdtscp,
        invariant_tsc,
        smep: structured && smep,
        smap: structured && smap,
        avx2: structured && avx2,
        maxphyaddr,
    }
}

/// The features before they were detected: none, and 36 address bits.
pub fn features() -> (r: CpuFeatures)
    ensures
        r == (CpuFeatures {
            nx: false,
            smep: false,
            smap: false,
            pat: false,
            apic: false,
            sep: false,
            syscall: false,
            mmx: false,
            sse: false,
            sse2: false,
            sse3: false,
            ssse3: false,
            sse4_1: false,
            sse4_2: false,
            avx: false,
            avx2: false,
            fsgsbase: false,
            tsc_deadline: false,
            rdtscp: false,
            invariant_tsc: false,
            maxphyaddr: 36,
        }),
{
    CpuFeatures {
        nx: false,
        smep: false,
        smap: false,
        pat: false,
        apic: false,
        sep: false,
        syscall: false,
        mmx: false,
        sse: false,
        sse2: false,
        sse3: false,
        ssse3: false,
        sse4_1: false,
        sse4_2: false,
        avx: false,
        avx2: false,
        fsgsbase: false,
        tsc_deadline: false,
        rdtscp: false,
        invariant_tsc: false,
        maxphyaddr: 36,
    }
}

/// CR4.SMEP: the kernel does not execute code in user pages.
pub const CR4_SMEP: u64 = 0x10_0000;

/// CR4.SMAP: the kernel does not access data in user pages.
pub const CR4_SMAP: u64 = 0x20_0000;

/// CR4.OSFXSR and CR4.OSXMMEXCPT: SSE and its exceptions for user mode.
pub const CR4_SSE: u64 = 0x600;

/// The value of CR4 with the protections and SSE switched on, as far as the CPU has them.
pub fn enable_smep_smap(f: &CpuFeatures, cr4: u64) -> (r: u64)
    ensures
        r == cr4 | (if f.smep {
            CR4_SMEP
        } else {
            0
        }) | (if f.smap {
            CR4_SMAP
        } else {
            0
        }) | (if f.sse {
            CR4_SSE
        } else {
            0
        }),
{
    let smep: u64 = if f.smep {
        CR4_SMEP
    } else {
        0
    };
    let smap: u64 = if f.smap {
        CR4_SMAP
    } else {
        0
    };
    let sse: u64 = if f.sse {
        CR4_SSE
    } else {
        0
    };
    cr4 | smep | smap | sse
}

/// Switching the protections on twice is the same as once, and no bit is switched off.
pub proof fn law_cr4_only_gains(cr4: u64, smep: u64, smap: u64, sse: u64)
    ensures
        cr4 & (cr4 | smep | smap | sse) == cr4,
        (cr4 | smep | smap | sse) | smep | smap | sse == cr4 | smep | smap | sse,
{
    assert(cr4 & (cr4 | smep | smap | sse) == cr4) by (bit_vector);
    assert((cr4 | smep | smap | sse) | smep | smap | sse == cr4 | smep | smap | sse)
        by (bit_vector);
}

/// The value of CR0 with the FPU switched on: no emulation (bit 2 clear), and the
/// coprocessor monitored (bit 1 set).
pub open spec fn fpu_cr0(cr0: u64) -> int {
    cr0 - cr0 / 2 % 4 * 2 + 2
}

/// MXCSR with all floating-point exceptions masked.
pub const MXCSR_DEFAULT: u32 = 0x1F80;

pub fn enable_fpu(cr0: u64) -> (r: u64)
    ensures
        r == fpu_cr0(cr0),
{
    cr0 - cr0 / 2 % 4 * 2 + 2
}

/// A line that says whether the CPU has a feature.
pub open spec fn with_flag(out: Seq<u8>, label: Seq<char>, flag: bool) -> Seq<u8> {
    out + serial::text(label) + serial::text(
        if flag {
            "YES"@
        } else {
            "NO"@
        },
    ) + serial::line_end()
}

fn write_flag(out: &mut Vec<u8>, label: &str, flag: bool)
    ensures
        final(out)@ == with_flag(old(out)@, label@, flag),
{
    serial::write_str(out, label);
    serial::write_str_nl(
        out,
        if flag {
            "YES"
        } else {
            "NO"
        },
    );
}

/// The list of detected features.
pub open spec fn with_features(out: Seq<u8>, f: CpuFeatures) -> Seq<u8> {
    let t0 = out + serial::text("[CPU] Detected features:"@) + serial::line_end();
    let t1 = with_flag(t0, "  NX (No Execute):      "@, f.nx);
    let t2 = with_flag(t1, "  SMEP:                  "@, f.smep);
    let t3 = with_flag(t2, "  SMAP:                  "@, f.smap);
    let t4 = with_flag(t3, "  PAT:                   "@, f.pat);
    let t5 = with_flag(t4, "  APIC:                  "@, f.apic);
    let t6 = with_flag(t5, "  Syscall/Sysret:        "@, f.syscall);
    let t7 = with_flag(t6, "  FSGSBASE:              "@, f.fsgsbase);
    let t8 = with_flag(t7, "  SSE:                   "@, f.sse);
    let t9 = with_flag(t8, "  SSE2:                  "@, f.sse2);
    let t10 = with_flag(t9, "  AVX:                   "@, f.avx);
    let t11 = with_flag(t10, "  AVX2:                  "@, f.avx2);
    let t12 = with_flag(t11, "  TSC Deadline Timer:    "@, f.tsc_deadline);
    let t13 = with_flag(t12, "  Invariant TSC:         "@, f.invariant_tsc);
    t13 + serial::text("  Max PHY addr bits:     "@) + serial::hex_text(f.maxphyaddr as u64)
        + serial::line_end()
}

/// Print detected CPU features.
pub fn print_features(out: &mut Vec<u8>, f: &CpuFeatures)
    ensures
        final(out)@ == with_features(old(out)@, *f),
{
    serial::write_str_nl(out, "[CPU] Detected features:");
    write_flag(out, "  NX (No Execute):      ", f.nx);
    write_flag(out, "  SMEP:                  ", f.smep);
    write_flag(out, "  SMAP:                  ", f.smap);
    write_flag(out, "  PAT:                   ", f.pat);
    write_flag(out, "  APIC:                  ", f.apic);
    write_flag(out, "  Syscall/Sysret:        ", f.syscall);
    write_flag(out, "  FSGSBASE:              ", f.fsgsbase);
    write_flag(out, "  SSE:                   ", f.sse);
    write_flag(out, "  SSE2:                  ", f.sse2);
    write_flag(out, "  AVX:                   ", f.avx);
    write_flag(out, "  AVX2:                  ", f.avx2);
    write_flag(out, "  TSC Deadline Timer:    ", f.tsc_deadline);
    write_flag(out, "  Invariant TSC:         ", f.invariant_tsc);
    serial::write_str(out, "  Max PHY addr bits:     ");
    serial::write_hex(out, f.maxphyaddr as u64);
    serial::write_nl(out);
}

} // verus!
