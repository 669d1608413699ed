//! The relocations of the kernel image.
//!
//! After the boot loader has applied its relative relocations, pointers inside the image
//! hold physical addresses. Once the kernel runs in the upper half they are turned into
//! virtual ones.
use vstd::prelude::*;

use crate::bytes;
use crate::memory;
use crate::memory::phys_to_kernel_virt;

verus! {

/// Size of a relocation entry: offset, type and addend.
pub const RELA_SIZE: u64 = 24;

/// Type of a relative relocation.
pub const R_X86_64_RELATIVE: u32 = 8;

/// Whether the entry at byte `at` is a relative relocation.
pub open spec fn is_relative(image: Seq<u8>, at: int) -> bool {
    bytes::le32(image, at + 8) == R_X86_64_RELATIVE
}

/// The place in the image that the entry at byte `at` is about.
pub open spec fn target(image: Seq<u8>, base: u64, at: int) -> int {
    bytes::le64(image, at) - base
}

/// Whether the entry at byte `at`, if it is a relative one, is about 8 bytes of the image.
pub open spec fn target_ok(image: Seq<u8>, base: u64, at: int) -> bool {
    is_relative(image, at) ==> 0 <= target(image, base, at) && target(image, base, at) + 8
        <= image.len()
}

/// The image with the entry at byte `at` carried out.
pub open spec fn fixed_one(image: Seq<u8>, base: u64, at: int, kernel_phys_start: u64) -> Seq<u8> {
    if is_relative(image, at) {
        let t = target(image, base, at);
        let value = memory::kernel_virt(bytes::le64(image, t), kernel_phys_start);
        bytes::overlay(image, t, bytes::le64_bytes(value))
    } else {
        image
    }
}

/// The image with the first `n` entries of the table at byte `table` carried out.
pub open spec fn fixed(
    image: Seq<u8>,
    base: u64,
    table: int,
    n: int,
    kernel_phys_start: u64,
) -> Seq<u8>
    decreases n,
{
    if n <= 0 {
        image
    } else {
        fixed_one(
            fixed(image, base, table, n - 1, kernel_phys_start),
            base,
            table + 24 * (n - 1),
            kernel_phys_start,
        )
    }
}

/// Turn the relocated pointers of the kernel image into virtual addresses. `image` is
/// linked at `image_base`; its relocation table starts at `rela_dyn_vaddr`. Nothing
/// happens before the start of the image is known, or without relocations.
pub fn fixup_pic_relocations(
    image: &mut Vec<u8>,
    image_base: u64,
    kernel_phys_start: u64,
    rela_dyn_vaddr: u64,
    rela_dyn_size: u64,
)
    requires
        kernel_phys_start != 0 && rela_dyn_vaddr != 0 && rela_dyn_size != 0 ==> {
            &&& image_base <= rela_dyn_vaddr
            &&& rela_dyn_vaddr - image_base + rela_dyn_size <= old(image)@.len()
            &&& forall|i: int|
                0 <= i < rela_dyn_size as int / 24 ==> #[trigger] target_ok(
                    fixed(
                        old(image)@,
                        image_base,
                        rela_dyn_vaddr - image_base,
                        i,
                        kernel_phys_start,
                    ),
                    image_base,
                    rela_dyn_vaddr - image_base + 24 * i,
                )
        },
    ensures
        final(image)@ == if kernel_phys_start == 0 || rela_dyn_vaddr == 0 || rela_dyn_size == 0 {
            old(image)@
        } else {
            fixed(
                old(image)@,
                image_base,
                rela_dyn_vaddr - image_base,
                rela_dyn_size as int / 24,
                kernel_phys_start,
            )
        },
{
    if kernel_phys_start == 0 || rela_dyn_vaddr == 0 || rela_dyn_size == 0 {
        return;
    }
    let ghost before = image@;
    let table: u64 = rela_dyn_vaddr - image_base;
    let count: u64 = rela_dyn_size / RELA_SIZE;
    let mut i: u64 = 0;
    while i < count
        invariant
            i <= count,
            count * 24 <= rela_dyn_size,
            table + rela_dyn_size <= before.len(),
            image@.len() == before.len(),
            image@ == fixed(before, image_base, table as int, i as int, kernel_phys_start),
            forall|k: int|
                0 <= k < count ==> #[trigger] target_ok(
                    fixed(before, image_base, table as int, k, kernel_phys_start),
                    image_base,
                    table + 24 * k,
                ),
        decreases count - i,
    {
        let len: usize = image.len();
        let at: usize = (table + i * RELA_SIZE) as usize;
        assert(target_ok(image@, image_base, table + 24 * i));
        let kind: u32 = bytes::read_u32(image, at + 8);
        if kind == R_X86_64_RELATIVE {
            let offset: u64 = bytes::read_u64(image, at);
            let place: usize = (offset - image_base) as usize;
            let current: u64 = bytes::read_u64(image, place);
            let value: u64 = phys_to_kernel_virt(current, kernel_phys_start);
            bytes::write_u64(image, place, value);
        }
        i = i + 1;
    }
}

/// Each relocated pointer is converted exactly once: if no
/// two entries are about overlapping places, and none is about the table itself, every
/// place that a relative entry is about holds the virtual address of what it held.
pub proof fn law_fixup_converts(
    image: Seq<u8>,
    base: u64,
    table: int,
    n: int,
    kernel_phys_start: u64,
    i: int,
)
    requires
        0 <= table,
        table + 24 * n <= image.len(),
        separate(image, base, table, n),
        0 <= i < n,
        is_relative(image, table + 24 * i),
    ensures
        bytes::le64(
            fixed(image, base, table, n, kernel_phys_start),
            target(image, base, table + 24 * i),
        ) == memory::kernel_virt(
            bytes::le64(image, target(image, base, table + 24 * i)),
            kernel_phys_start,
        ),
{
    lemma_place(image, base, table, n, n, i, kernel_phys_start);
}

/// Whether all the places that the first `n` entries are about lie inside the image,
/// outside the table, and apart from each other.
pub open spec fn separate(image: Seq<u8>, base: u64, table: int, n: int) -> bool {
    forall|i: int|
        #![trigger is_relative(image, table + 24 * i)]
        0 <= i < n && is_relative(image, table + 24 * i) ==> {
            let t = target(image, base, table + 24 * i);
            &&& 0 <= t
            &&& t + 8 <= image.len()
            &&& t + 8 <= table || table + 24 * n <= t
            &&& forall|j: int|
                #![trigger target(image, base, table + 24 * j)]
                0 <= j < n && j != i && is_relative(image, table + 24 * j) ==> t + 8 <= target(
                    image,
                    base,
                    table + 24 * j,
                ) || target(image, base, table + 24 * j) + 8 <= t
        }
}

/// Carrying out entries changes neither the length of the image nor the table.
proof fn lemma_table_kept(
    image: Seq<u8>,
    base: u64,
    table: int,
    n: int,
    m: int,
    kernel_phys_start: u64,
)
    requires
        0 <= table,
        0 <= m <= n,
        table + 24 * n <= image.len(),
        separate(image, base, table, n),
    ensures
        fixed(image, base, table, m, kernel_phys_start).len() == image.len(),
        forall|k: int|
            table <= k < table + 24 * n ==> #[trigger] fixed(
                image,
                base,
                table,
                m,
                kernel_phys_start,
            )[k] == image[k],
    decreases m,
{
    if m > 0 {
        lemma_table_kept(image, base, table, n, m - 1, kernel_phys_start);
        lemma_entry_kept(image, base, table, n, m - 1, m - 1, kernel_phys_start);
    }
}

/// An entry reads the same before and after earlier entries were carried out.
proof fn lemma_entry_kept(
    image: Seq<u8>,
    base: u64,
    table: int,
    n: int,
    m: int,
    i: int,
    kernel_phys_start: u64,
)
    requires
        0 <= table,
        0 <= i < n,
        table + 24 * n <= image.len(),
        forall|k: int|
            table <= k < table + 24 * n ==> #[trigger] fixed(
                image,
                base,
                table,
                m,
                kernel_phys_start,
            )[k] == image[k],
    ensures
        ({
            let now = fixed(image, base, table, m, kernel_phys_start);
            let at = table + 24 * i;
            &&& is_relative(now, at) == is_relative(image, at)
            &&& target(now, base, at) == target(image, base, at)
        }),
{
    let now = fixed(image, base, table, m, kernel_phys_start);
    let at = table + 24 * i;
    bytes::lemma_le64_same(now, image, at);
    bytes::lemma_le64_same(now, image, at + 8);
}

/// What the place of entry `i` holds after the first `m` entries were carried out.
proof fn lemma_place(
    image: Seq<u8>,
    base: u64,
    table: int,
    n: int,
    m: int,
    i: int,
    kernel_phys_start: u64,
)
    requires
        0 <= table,
        0 <= m <= n,
        table + 24 * n <= image.len(),
        separate(image, base, table, n),
        0 <= i < n,
        is_relative(image, table + 24 * i),
    ensures
        ({
            let t = target(image, base, table + 24 * i);
            bytes::le64(fixed(image, base, table, m, kernel_phys_start), t) == if i < m {
                memory::kernel_virt(bytes::le64(image, t), kernel_phys_start)
            } else {
                bytes::le64(image, t)
            }
        }),
    decreases m,
{
    if m > 0 {
        lemma_place(image, base, table, n, m - 1, i, kernel_phys_start);
        lemma_table_kept(image, base, table, n, m - 1, kernel_phys_start);
        lemma_entry_kept(image, base, table, n, m - 1, m - 1, kernel_phys_start);
        let prev = fixed(image, base, table, m - 1, kernel_phys_start);
        let now = fixed(image, base, table, m, kernel_phys_start);
        let at = table + 24 * (m - 1);
        let u = target(image, base, table + 24 * i);
        if is_relative(image, at) {
            let t = target(image, base, at);
            let value = memory::kernel_virt(bytes::le64(prev, t), kernel_phys_start);
            assert(now == bytes::overlay(prev, t, bytes::le64_bytes(value)));
            if i == m - 1 {
                bytes::lemma_le64_overlay(prev, t, value);
            } else {
                assert(u + 8 <= t || t + 8 <= u);
                bytes::lemma_le64_same(now, prev, u);
            }
        }
    }
}

} // verus!
