//! Frames, pages and addresses.
use vstd::prelude::*;

use crate::aslr::xorshift;
use crate::bytes;
use crate::cpu::{bit, features_of, fpu_cr0, CpuFeatures, Cpuid};
use crate::gdt::{base_in, patched_high, patched_low};
use crate::memory;
use crate::memory::map::{kind_of, region_of, FirmwareRegion, MemoryRegion};
use crate::memory::pmm::{
    end_frame, first_frame, frames_for, free_count, highest_end, in_usable, run_free, with_used,
};
use crate::memory::relocate::fixed_one;
use crate::memory::vmm::{
    canonical, entry_frame, level_index, page_frame, translation, KernelMapPlan,
};
use crate::mmio::{mmio_mapping, mmio_virt};

verus! {

/// The kinds of memory by the firmware's numbers.
pub proof fn law_memory_kinds(ty: u32)
    ensures
        kind_of(7) is Usable,
        kind_of(1) is KernelCode && kind_of(2) is KernelCode,
        kind_of(3) is BootloaderCode && kind_of(4) is BootloaderCode,
        kind_of(9) is AcpiReclaimable && kind_of(10) is AcpiNvs,
        kind_of(11) is Mmio && kind_of(12) is Mmio,
        ty == 0 || ty == 5 || ty == 6 || ty == 8 || ty > 12 ==> kind_of(ty) is Reserved,
        kind_of(ty) is Usable ==> ty == 7,
{
}

/// A region starts where the firmware says and is as long as its pages of 4096 bytes.
pub proof fn law_region(d: FirmwareRegion)
    requires
        d.page_count * 4096 <= u64::MAX,
    ensures
        region_of(d).start.addr == d.phys_start,
        region_of(d).length == 4096 * d.page_count,
        region_of(d).kind == kind_of(d.ty),
{
}

/// Every byte of a region lies in one of its frames, and each of its frames holds a byte of
/// it.
pub proof fn law_frames_of_region(r: MemoryRegion, b: int, f: int)
    requires
        r.length > 0,
    ensures
        r.start.addr <= b < r.start.addr + r.length ==> first_frame(r) <= b / 4096 < end_frame(r),
        first_frame(r) <= f < end_frame(r) ==> 4096 * f < r.start.addr + r.length && r.start.addr
            < 4096 * f + 4096,
{
}

/// The frames that are tracked reach to the end of the highest region, and no further than
/// there or than the allocator can track.
pub proof fn law_frames_tracked(regions: Seq<MemoryRegion>, k: int)
    requires
        0 <= k < regions.len(),
    ensures
        ({
            let n = frames_for(regions);
            let limit = memory::pmm::MAX_FRAMES as int;
            &&& n <= limit
            &&& n < limit ==> regions[k].start.addr + regions[k].length <= 4096 * n
            &&& n == 0 || exists|j: int|
                0 <= j < regions.len() && (#[trigger] regions[j]).start.addr + regions[j].length
                    > 4096 * (n - 1)
        }),
{
    lemma_highest(regions, regions.len() as int, k);
    let top = highest_end(regions, regions.len() as int);
    let n = frames_for(regions);
    if n > 0 {
        assert(top > 4096 * (n - 1));
        let j = choose|j: int|
            0 <= j < regions.len() && (#[trigger] regions[j]).start.addr + regions[j].length == top;
        assert(regions[j].start.addr + regions[j].length > 4096 * (n - 1));
    }
}

proof fn lemma_highest(regions: Seq<MemoryRegion>, n: int, k: int)
    requires
        0 <= n <= regions.len(),
    ensures
        0 <= k < n ==> regions[k].start.addr + regions[k].length <= highest_end(regions, n),
        highest_end(regions, n) >= 0,
        highest_end(regions, n) == 0 || exists|j: int|
            0 <= j < n && (#[trigger] regions[j]).start.addr + regions[j].length == highest_end(
                regions,
                n,
            ),
    decreases n,
{
    if n > 0 {
        lemma_highest(regions, n - 1, k);
        assert(regions[n - 1].start.addr + regions[n - 1].length <= highest_end(regions, n));
    }
}

/// A frame is usable exactly if one of its bytes lies in a usable region.
pub proof fn law_usable_frames(regions: Seq<MemoryRegion>, k: int, b: int)
    requires
        0 <= k < regions.len(),
        regions[k].kind is Usable,
        regions[k].start.addr <= b < regions[k].start.addr + regions[k].length,
    ensures
        in_usable(regions, b / 4096),
{
    law_frames_of_region(regions[k], b, 0);
}

/// Frames are counted: taking a free one leaves one less.
pub proof fn law_free_frames_counted(used: Seq<bool>, n: int, i: int)
    requires
        0 <= i < n <= used.len(),
        !used[i],
    ensures
        free_count(used.update(i, true), n) == free_count(used, n) - 1,
        free_count(used, 0) == 0,
    decreases n,
{
    let more = used.update(i, true);
    if i < n - 1 {
        law_free_frames_counted(used, n - 1, i);
    } else {
        lemma_same_free(used, more, n - 1);
    }
}

proof fn lemma_same_free(a: Seq<bool>, b: Seq<bool>, n: int)
    requires
        forall|i: int| 0 <= i < n ==> #[trigger] a[i] == b[i],
    ensures
        free_count(a, n) == free_count(b, n),
    decreases n,
{
    if n > 0 {
        lemma_same_free(a, b, n - 1);
    }
}

/// Marking a range as used takes the frames of the range and no other.
pub proof fn law_range_used(used: Seq<bool>, from: int, to: int, i: int)
    requires
        0 <= i < used.len(),
    ensures
        with_used(used, from, to).len() == used.len(),
        from <= i < to ==> with_used(used, from, to)[i],
        i < from || i >= to ==> with_used(used, from, to)[i] == used[i],
{
}

/// A run of free frames is one whose frames are all free and tracked; a shorter run inside it
/// is free too.
pub proof fn law_free_run(used: Seq<bool>, total: int, start: int, count: int, i: int)
    requires
        count > 0,
        run_free(used, total, start, count),
        start <= i < start + count,
    ensures
        !used[i],
        0 <= i < total,
        run_free(used, total, i, start + count - i),
        run_free(used, total, i, 1),
{
}

/// An address is canonical if bits 47 to 63 are all equal.
pub proof fn law_canonical(addr: u64)
    ensures
        canonical(addr) <==> addr as int / 0x8000_0000_0000 == 0 || addr as int / 0x8000_0000_0000
            == 0x1_FFFF,
{
}

/// An address is made up of the four indices and the offset in the page: nine bits each from
/// bits 39, 30, 21 and 12 on, and twelve bits.
#[verifier::rlimit(40)]
pub proof fn law_indices_make_address(a4: int, a3: int, a2: int, a1: int, offset: int, high: int)
    requires
        0 <= a4 < 512,
        0 <= a3 < 512,
        0 <= a2 < 512,
        0 <= a1 < 512,
        0 <= offset < 4096,
        0 <= high < 65536,
    ensures
        ({
            let addr = (high * 0x1_0000_0000_0000 + a4 * 0x80_0000_0000 + a3 * 0x4000_0000 + a2
                * 0x20_0000 + a1 * 0x1000 + offset) as u64;
            &&& level_index(addr, 4) == a4
            &&& level_index(addr, 3) == a3
            &&& level_index(addr, 2) == a2
            &&& level_index(addr, 1) == a1
        }),
{
    let x = high * 0x1_0000_0000_0000 + a4 * 0x80_0000_0000 + a3 * 0x4000_0000 + a2 * 0x20_0000
        + a1 * 0x1000 + offset;
    assert(0 <= x <= u64::MAX);
    assert(x / 0x1000 == high * 0x10_0000_0000 + a4 * 0x800_0000 + a3 * 0x4_0000 + a2 * 0x200 + a1);
    assert(x / 0x20_0000 == high * 0x800_0000 + a4 * 0x4_0000 + a3 * 0x200 + a2);
    assert(x / 0x4000_0000 == high * 0x4_0000 + a4 * 0x200 + a3);
    assert(x / 0x80_0000_0000 == high * 0x200 + a4);
}

/// An entry leads to the frame in its bits 12 to 51 if its bit 0 is set and bit 7 is not.
#[verifier::rlimit(40)]
pub proof fn law_entry_frame(number: int, flags: int, high: int)
    requires
        0 <= number < 0x100_0000_0000,
        0 <= flags < 4096,
        0 <= high < 4096,
    ensures
        ({
            let entry = (high * 0x10_0000_0000_0000 + number * 4096 + flags) as u64;
            &&& flags % 2 == 1 && flags / 128 % 2 == 0 ==> (entry_frame(entry) matches Some(f) && f
                == number * 4096)
            &&& flags % 2 == 0 || flags / 128 % 2 == 1 ==> entry_frame(entry) is None
            &&& entry != 0 ==> (page_frame(entry) matches Some(f) && f == number * 4096)
            &&& page_frame(0) is None
        }),
{
    let x = high * 0x10_0000_0000_0000 + number * 4096 + flags;
    assert(0 <= x <= u64::MAX);
    assert(x / 4096 == high * 0x100_0000_0000 + number);
    assert(x % 2 == flags % 2);
    assert(x / 128 % 2 == flags / 128 % 2);
    assert(x / 4096 % 0x100_0000_0000 == number);
}

/// A virtual address is mapped to what four entries say, each in the table that the one before
/// leads to, at eight times the index; the offset in the page stays.
pub proof fn law_four_level_walk(
    mem: spec_fn(u64) -> u64,
    root: u64,
    t3: u64,
    t2: u64,
    t1: u64,
    page: u64,
    addr: u64,
)
    requires
        entry_frame(mem((root + 8 * (addr as int / 0x80_0000_0000 % 512)) as u64)) == Some(t3),
        entry_frame(mem((t3 + 8 * (addr as int / 0x4000_0000 % 512)) as u64)) == Some(t2),
        entry_frame(mem((t2 + 8 * (addr as int / 0x20_0000 % 512)) as u64)) == Some(t1),
        page_frame(mem((t1 + 8 * (addr as int / 0x1000 % 512)) as u64)) == Some(page),
        page + 4096 <= u64::MAX,
    ensures
        translation(mem, root, 4, addr) matches Some(phys) && phys == page + addr % 4096,
{
    reveal_with_fuel(translation, 5);
}

/// If one of the first three entries leads nowhere, the address is not mapped.
pub proof fn law_walk_ends(mem: spec_fn(u64) -> u64, root: u64, t3: u64, t2: u64, t1: u64, addr: u64)
    ensures
        entry_frame(mem((root + 8 * (addr as int / 0x80_0000_0000 % 512)) as u64)) is None
            ==> translation(mem, root, 4, addr) is None,
        entry_frame(mem((root + 8 * (addr as int / 0x80_0000_0000 % 512)) as u64)) == Some(t3)
            && entry_frame(mem((t3 + 8 * (addr as int / 0x4000_0000 % 512)) as u64)) is None
            ==> translation(mem, root, 4, addr) is None,
        entry_frame(mem((root + 8 * (addr as int / 0x80_0000_0000 % 512)) as u64)) == Some(t3)
            && entry_frame(mem((t3 + 8 * (addr as int / 0x4000_0000 % 512)) as u64)) == Some(t2)
            && entry_frame(mem((t2 + 8 * (addr as int / 0x20_0000 % 512)) as u64)) is None
            ==> translation(mem, root, 4, addr) is None,
        entry_frame(mem((root + 8 * (addr as int / 0x80_0000_0000 % 512)) as u64)) == Some(t3)
            && entry_frame(mem((t3 + 8 * (addr as int / 0x4000_0000 % 512)) as u64)) == Some(t2)
            && entry_frame(mem((t2 + 8 * (addr as int / 0x20_0000 % 512)) as u64)) == Some(t1)
            && mem((t1 + 8 * (addr as int / 0x1000 % 512)) as u64) == 0 ==> translation(
            mem,
            root,
            4,
            addr,
        ) is None,
{
    reveal_with_fuel(translation, 5);
}

/// The kernel image is mapped page by page from the top two gibibytes on, the heap a
/// gibibyte behind that on the frames that it is given, and the first four gibibytes as they
/// are. All of it is present and writable.
#[verifier::rlimit(40)]
pub proof fn law_kernel_map(plan: KernelMapPlan, k: int, frame: u64)
    requires
        plan.wf(),
        0 <= k < plan.kernel_pages() + 4096 + 0x10_0000,
    ensures
        ({
            let m = plan.mapping(k, frame);
            let n = plan.kernel_pages();
            &&& m.flags == 3
            &&& k < n ==> m.phys == plan.kernel_phys_start + 4096 * k && (m.virt - (
            0xFFFF_FFFF_8000_0000 + 4096 * k)) % 0x1_0000_0000_0000_0000 == 0
            &&& n <= k < n + 4096 ==> m.phys == frame && m.virt == 0xFFFF_FFFF_C000_0000 + 4096 * (k
                - n)
            &&& n + 4096 <= k ==> m.virt == m.phys && m.phys == 4096 * (k - n - 4096) && m.phys
                < 0x1_0000_0000
        }),
        plan.kernel_phys_start < plan.kernel_phys_end ==> plan.kernel_phys_start + 4096
            * plan.kernel_pages() >= plan.kernel_phys_end && plan.kernel_phys_start + 4096 * (
        plan.kernel_pages() - 1) < plan.kernel_phys_end,
        plan.kernel_phys_start >= plan.kernel_phys_end ==> plan.kernel_pages() == 0,
{
}

/// A pointer of the image that is turned into a virtual address keeps its distance from the
/// start of the image.
pub proof fn law_pointer_converted(phys: u64, start: u64)
    ensures
        (memory::kernel_virt(phys, start) - 0xFFFF_FFFF_8000_0000 - (phys - start))
            % 0x1_0000_0000_0000_0000 == 0,
{
}

/// The entry of a relocation table at byte `at` says the address of its word and, at byte 8,
/// its type. A relative one (type 8) has its word turned from a physical into a virtual
/// address; any other leaves the image alone.
#[verifier::rlimit(40)]
pub proof fn law_word_fixed(image: Seq<u8>, base: u64, at: int, start: u64, place: int, phys: u64, i: int)
    requires
        bytes::has64(image, at, base + place),
        0 <= place,
        place + 8 <= image.len(),
        bytes::has64(image, place, phys as int),
        0 <= i < image.len(),
    ensures
        ({
            let after = fixed_one(image, base, at, start);
            &&& bytes::has32(image, at + 8, 8) ==> bytes::has64(
                after,
                place,
                (0xFFFF_FFFF_8000_0000 + phys - start) % 0x1_0000_0000_0000_0000,
            )
            &&& at + 12 <= image.len() && !bytes::has32(image, at + 8, 8) ==> after == image
            &&& i < place || i >= place + 8 ==> after[i] == image[i]
            &&& after.len() == image.len()
        }),
{
    bytes::law_little_endian(image, at, base + place);
    bytes::law_little_endian(image, at + 8, 8);
    if at + 12 <= image.len() {
        bytes::law_read_is_there(image, at + 8);
    }
    bytes::law_little_endian(image, place, phys as int);
    let v = memory::kernel_virt(phys, start);
    bytes::law_written_number(image, place, v, i);
}

/// Device memory appears in the top four gibibytes of the address space at its own low 32
/// bits, present, writable and not cached.
pub proof fn law_device_memory(phys: u64)
    ensures
        mmio_virt(phys) as int / 0x1_0000_0000 == 0xFFFF_FFFF,
        mmio_virt(phys) as int % 0x1_0000_0000 == phys as int % 0x1_0000_0000,
        mmio_mapping(phys).virt == mmio_virt(phys),
        mmio_mapping(phys).phys == phys,
        mmio_mapping(phys).flags as int % 2 == 1,
        mmio_mapping(phys).flags as int / 2 % 2 == 1,
        mmio_mapping(phys).flags as int / 8 % 2 == 1,
        mmio_mapping(phys).flags as int / 16 % 2 == 1,
        mmio_mapping(phys).flags as int / 4 % 2 == 0,
        mmio_mapping(phys).flags < 32,
{
}

/// The step of the generator is one-to-one: different states have different successors.
pub proof fn law_generator_one_to_one(x: u64, y: u64)
    requires
        x != y,
    ensures
        xorshift(x) != xorshift(y),
{
    let a = x ^ (x << 13u64);
    let b = y ^ (y << 13u64);
    assert(a != b) by (bit_vector)
        requires
            x != y,
            a == x ^ (x << 13u64),
            b == y ^ (y << 13u64),
    ;
    let c = a ^ (a >> 7u64);
    let d = b ^ (b >> 7u64);
    assert(c != d) by (bit_vector)
        requires
            a != b,
            c == a ^ (a >> 7u64),
            d == b ^ (b >> 7u64),
    ;
    let e = c ^ (c << 17u64);
    let f = d ^ (d << 17u64);
    assert(e != f) by (bit_vector)
        requires
            c != d,
            e == c ^ (c << 17u64),
            f == d ^ (d << 17u64),
    ;
}

/// The feature flags by their bits: of leaf 1, of leaf 7 if there is one, and of the extended
/// leaves.
pub proof fn law_feature_bits(f: CpuFeatures, id: Cpuid)
    requires
        features_of(f, id),
    ensures
        f.nx <==> id.ext_edx as int / 0x10_0000 % 2 == 1,
        f.rdtscp <==> id.ext_edx as int / 0x800_0000 % 2 == 1,
        f.apic <==> id.edx as int / 0x200 % 2 == 1,
        f.sep <==> id.edx as int / 0x800 % 2 == 1,
        f.pat <==> id.edx as int / 0x1_0000 % 2 == 1,
        f.mmx <==> id.edx as int / 0x80_0000 % 2 == 1,
        f.sse <==> id.edx as int / 0x200_0000 % 2 == 1,
        f.sse2 <==> id.edx as int / 0x400_0000 % 2 == 1,
        f.sse3 <==> id.ecx as int % 2 == 1,
        f.ssse3 <==> id.ecx as int / 0x200 % 2 == 1,
        f.sse4_1 <==> id.ecx as int / 0x8_0000 % 2 == 1,
        f.sse4_2 <==> id.ecx as int / 0x10_0000 % 2 == 1,
        f.fsgsbase <==> id.ebx as int % 2 == 1,
        f.syscall <==> f.sep,
        f.tsc_deadline <==> id.ecx as int / 0x100_0000 % 2 == 1,
        f.avx <==> id.ecx as int / 0x1000_0000 % 2 == 1,
        f.invariant_tsc <==> id.power_edx as int / 0x100 % 2 == 1,
        f.smep <==> id.max_leaf >= 7 && id.structured_ebx as int / 0x80 % 2 == 1,
        f.smap <==> id.max_leaf >= 7 && id.structured_ebx as int / 0x10_0000 % 2 == 1,
        f.avx2 <==> id.max_leaf >= 7 && id.structured_ebx as int / 0x20 % 2 == 1,
        f.maxphyaddr == id.address_eax as int % 256,
{
    reveal(bit);
}

/// Switching the FPU on sets bit 1 of CR0, clears bit 2 and leaves the rest.
pub proof fn law_fpu_on(cr0: u64)
    ensures
        0 <= fpu_cr0(cr0) <= u64::MAX,
        fpu_cr0(cr0) / 2 % 2 == 1,
        fpu_cr0(cr0) / 4 % 2 == 0,
        fpu_cr0(cr0) % 2 == cr0 as int % 2,
        fpu_cr0(cr0) / 8 == cr0 as int / 8,
{
}

/// The base address of a task state segment is in bits 16 to 39 and 56 to 63 of its first
/// entry and in the low half of the second.
pub proof fn law_base_in_descriptor(low: u64, high: u64, base: u64)
    ensures
        (patched_low(low, base) >> 16u64) & 0xFF_FFFF == base & 0xFF_FFFF,
        patched_low(low, base) >> 56u64 == (base >> 24u64) & 0xFF,
        patched_high(high, base) & 0xFFFF_FFFF == base >> 32u64,
        base_in(low, high) & 0xFF_FFFF == (low >> 16u64) & 0xFF_FFFF,
        (base_in(low, high) >> 24u64) & 0xFF == low >> 56u64,
        base_in(low, high) >> 32u64 == high & 0xFFFF_FFFF,
{
    let l = patched_low(low, base);
    let h = patched_high(high, base);
    let b = base_in(low, high);
    assert((l >> 16u64) & 0xFF_FFFF == base & 0xFF_FFFF && l >> 56u64 == (base >> 24u64) & 0xFF
        && h & 0xFFFF_FFFF == base >> 32u64 && b & 0xFF_FFFF == (low >> 16u64) & 0xFF_FFFF && (b
        >> 24u64) & 0xFF == low >> 56u64 && b >> 32u64 == high & 0xFFFF_FFFF) by (bit_vector)
        requires
            l == (low & 0x00FF_FD00_0000_FFFFu64) | ((base & 0xFF_FFFFu64) << 16u64) | (((base
                >> 24u64) & 0xFFu64) << 56u64),
            h == (high & 0xFFFF_FFFF_0000_0000u64) | (base >> 32u64),
            b == ((low >> 16u64) & 0xFF_FFFFu64) | (((low >> 56u64) & 0xFFu64) << 24u64) | ((high
                & 0xFFFF_FFFFu64) << 32u64),
    ;
}

} // verus!
