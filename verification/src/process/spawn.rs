//! Starting a user program: its stack, its place in the process table, and what is
//! reported of it.
use vstd::prelude::*;

use crate::elf::ElfError;
use crate::memory::map::PhysAddr;
use crate::memory::pmm;
use crate::memory::pmm::Pmm;
use crate::memory::vmm::Mapping;
use crate::memory::{FLAG_NO_EXECUTE, FLAG_PRESENT, FLAG_USER, FLAG_WRITABLE, PAGE_SIZE};
use crate::process::process::{Pid, KERNEL_STACK_SIZE};
use crate::process::scheduler;
use crate::process::scheduler::Scheduler;
use crate::serial;

verus! {

/// Pages of a user stack: a guard page, and four that the program can use.
pub const STACK_PAGES: u64 = 5;

/// Where page `i` of a user stack lies; page 0 is the lowest.
pub open spec fn stack_page(stack_top: u64, i: int) -> int {
    stack_top - (STACK_PAGES - i) * PAGE_SIZE
}

/// How page `i` of a user stack is mapped. The program can neither read nor write the
/// guard page, and cannot execute the others.
pub open spec fn stack_flags(i: int) -> u64 {
    if i == 0 {
        FLAG_PRESENT
    } else {
        (FLAG_PRESENT + FLAG_WRITABLE + FLAG_USER + FLAG_NO_EXECUTE) as u64
    }
}

/// Whether these are the first `pages.len()` pages of a user stack, on frames that were
/// free and are now taken.
pub open spec fn stack_mapped(before: Seq<bool>, after: Seq<bool>, stack_top: u64, pages: Seq<Mapping>) -> bool {
    &&& forall|i: int|
        0 <= i < pages.len() ==> {
            let frame = (#[trigger] pages[i]).phys as int / 4096;
            &&& pages[i].virt == stack_page(stack_top, i)
            &&& pages[i].flags == stack_flags(i)
            &&& pages[i].phys % 4096 == 0
            &&& 0 < frame < before.len()
            &&& !before[frame]
        }
    &&& forall|i: int, j: int|
        0 <= i < j < pages.len() ==> (#[trigger] pages[i]).phys != (#[trigger] pages[j]).phys
    &&& after == with_frames(before, pages)
}

/// The frames in use once those of some pages have been taken.
pub open spec fn with_frames(used: Seq<bool>, pages: Seq<Mapping>) -> Seq<bool>
    decreases pages.len(),
{
    if pages.len() == 0 {
        used
    } else {
        with_frames(used, pages.drop_last()).update(pages.last().phys as int / 4096, true)
    }
}

/// Taken frames are in use, and so is everything that was.
proof fn lemma_frames_taken(used: Seq<bool>, pages: Seq<Mapping>)
    requires
        forall|i: int|
            0 <= i < pages.len() ==> 0 < (#[trigger] pages[i]).phys as int / 4096 < used.len(),
    ensures
        with_frames(used, pages).len() == used.len(),
        forall|i: int|
            0 <= i < pages.len() ==> with_frames(used, pages)[(#[trigger] pages[i]).phys as int
                / 4096],
        forall|k: int| 0 <= k < used.len() && used[k] ==> #[trigger] with_frames(used, pages)[k],
    decreases pages.len(),
{
    if pages.len() > 0 {
        let front = pages.drop_last();
        assert forall|i: int| 0 <= i < front.len() implies 0 < (#[trigger] front[i]).phys as int
            / 4096 < used.len() by {
            assert(front[i] == pages[i]);
        }
        lemma_frames_taken(used, front);
        assert(pages.last() == pages[pages.len() - 1]);
        assert forall|i: int| 0 <= i < pages.len() implies with_frames(used, pages)[(
        #[trigger] pages[i]).phys as int / 4096] by {
            if i < front.len() {
                assert(front[i] == pages[i]);
            }
        }
    }
}

/// Takes frames for a user stack below `stack_top`: the pages to map, the guard page
/// first. `None` if memory ran out; the frames taken until then stay taken.
pub fn map_user_stack(pmm: &mut Pmm, stack_top: u64) -> (r: Option<Vec<Mapping>>)
    requires
        old(pmm).wf(),
        stack_top >= STACK_PAGES * PAGE_SIZE,
    ensures
        final(pmm).wf(),
        final(pmm).total() == old(pmm).total(),
        final(pmm).excess() == old(pmm).excess(),
        match r {
            Some(pages) => pages@.len() == STACK_PAGES && stack_mapped(
                old(pmm).used(),
                final(pmm).used(),
                stack_top,
                pages@,
            ),
            None => forall|k: int| 0 <= k < final(pmm).total() ==> #[trigger] final(pmm).used()[k],
        },
{
    let ghost before = pmm.used();
    proof {
        pmm.lemma_wf();
    }
    let mut pages: Vec<Mapping> = Vec::new();
    let mut i: u64 = 0;
    while i < STACK_PAGES
        invariant
            i <= STACK_PAGES,
            before == old(pmm).used(),
            pmm.wf(),
            pmm.total() == old(pmm).total(),
            pmm.excess() == old(pmm).excess(),
            stack_top >= STACK_PAGES * PAGE_SIZE,
            pages@.len() == i,
            stack_mapped(before, pmm.used(), stack_top, pages@),
        decreases STACK_PAGES - i,
    {
        let ghost had = pmm.used();
        let ghost taken = pages@;
        proof {
            pmm.lemma_wf();
        }
        let frame: PhysAddr = match pmm::alloc_frame(pmm) {
            Some(frame) => frame,
            None => {
                return None;
            },
        };
        let flags: u64 = if i == 0 {
            FLAG_PRESENT
        } else {
            FLAG_PRESENT + FLAG_WRITABLE + FLAG_USER + FLAG_NO_EXECUTE
        };
        pages.push(
            Mapping {
                virt: stack_top - (STACK_PAGES - i) * PAGE_SIZE,
                phys: frame.addr,
                flags,
            },
        );
        proof {
            let k = frame.addr as int / 4096;
            lemma_frames_taken(before, taken);
            assert(pages@.drop_last() =~= taken);
            assert(pmm.used() == had.update(k, true));
        }
        i = i + 1;
    }
    Some(pages)
}

/// The stack pointer that a program starts with.
pub open spec fn first_rsp(stack_top: u64) -> u64 {
    (stack_top - 8) as u64
}

/// What is reported of a program that was loaded.
pub open spec fn with_loaded(out: Seq<u8>, entry: u64, stack_top: u64, pml4: u64) -> Seq<u8> {
    out
        + serial::text("[PROC] ELF loaded: entry="@)
        + serial::hex_text(entry)
        + serial::text(", stack_top="@)
        + serial::hex_text(stack_top)
        + serial::text(", stack_guard="@)
        + serial::hex_text(stack_page(stack_top, 0) as u64)
        + serial::text(", pml4="@)
        + serial::hex_text(pml4)
        + serial::line_end()
}

/// What is reported of a program that could not be loaded.
pub open spec fn with_load_error(out: Seq<u8>, e: ElfError) -> Seq<u8> {
    out + serial::text("[PROC] ELF load failed: "@) + serial::text(e.text()) + serial::line_end()
}

/// Starts a program that was loaded into the page table `pml4`, with its stack below
/// `stack_top`. `loaded` is its entry point, or why it could not be loaded; `stack_base`
/// is the kernel stack of the new process, if there was memory for one.
pub fn spawn_user(
    sched: &mut Scheduler,
    out: &mut Vec<u8>,
    loaded: Result<u64, ElfError>,
    stack_top: u64,
    pml4: u64,
    parent: Option<Pid>,
    stack_base: Option<u64>,
    user_cs: u16,
    user_ss: u16,
) -> (r: Option<(Pid, [u64; 20])>)
    requires
        old(sched)@.wf(),
        old(sched)@.generations_left(),
        stack_base matches Some(b) ==> b + KERNEL_STACK_SIZE <= u64::MAX,
        stack_top >= STACK_PAGES * PAGE_SIZE,
    ensures
        final(sched)@.wf(),
        match loaded {
            Err(e) => {
                &&& r is None
                &&& final(sched)@ == old(sched)@
                &&& final(out)@ == with_load_error(old(out)@, e)
            },
            Ok(entry) => {
                &&& scheduler::user_spawned(
                    old(sched)@,
                    final(sched)@,
                    r,
                    entry,
                    first_rsp(stack_top),
                    pml4,
                    parent,
                    stack_base,
                    user_cs,
                    user_ss,
                )
                &&& final(out)@ == scheduler::with_spawned_text(
                    with_loaded(old(out)@, entry, stack_top, pml4),
                    match r {
                        Some((pid, _)) => Some(pid),
                        None => None,
                    },
                )
            },
        },
{
    let entry: u64 = match loaded {
        Ok(entry) => entry,
        Err(e) => {
            serial::write_str(out, "[PROC] ELF load failed: ");
            serial::write_str(out, e.description());
            serial::write_nl(out);
            return None;
        },
    };
    serial::write_str(out, "[PROC] ELF loaded: entry=");
    serial::write_hex(out, entry);
    serial::write_str(out, ", stack_top=");
    serial::write_hex(out, stack_top);
    serial::write_str(out, ", stack_guard=");
    serial::write_hex(out, stack_top - STACK_PAGES * PAGE_SIZE);
    serial::write_str(out, ", pml4=");
    serial::write_hex(out, pml4);
    serial::write_nl(out);
    sched.spawn_user(
        entry,
        stack_top - 8,
        pml4,
        parent,
        stack_base,
        user_cs,
        user_ss,
        out,
    )
}

/// The pages of a user stack lie one behind the other and end at its top; the guard page
/// is below all that the program can use, and it can use all of those, but not execute
/// them.
pub proof fn law_guard_below_stack(stack_top: u64, i: int)
    requires
        stack_top >= STACK_PAGES * PAGE_SIZE,
        0 <= i < STACK_PAGES,
    ensures
        stack_page(stack_top, i + 1) == stack_page(stack_top, i) + PAGE_SIZE,
        stack_page(stack_top, STACK_PAGES as int) == stack_top,
        stack_page(stack_top, 0) <= stack_page(stack_top, i),
        stack_flags(i) == FLAG_PRESENT <==> i == 0,
        stack_page(stack_top, 4) <= first_rsp(stack_top) < stack_top,
{
}

} // verus!
