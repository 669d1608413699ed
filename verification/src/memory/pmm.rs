//! The physical memory manager: a bitmap with one bit for each 4 KiB frame, set while
//! the frame is in use.
use vstd::prelude::*;

use crate::memory::map::{MemoryMap, MemoryRegion, MemoryRegionKind, PhysAddr, MAX_MEMORY_REGIONS};
use crate::memory::PAGE_SIZE;

verus! {

/// Maximum number of physical frames: 16 GiB of memory.
pub const MAX_FRAMES: usize = 4_194_304;

/// Bitmap size in bytes: one bit per frame.
pub const BITMAP_SIZE: usize = 524_288;

/// The state of the physical memory manager.
pub struct Pmm {
    bitmap: Vec<u8>,
    total_frames: usize,
    free_frames: usize,
}

/// Whether bit `k` of a byte is set.
pub open spec fn bit_set(b: u8, k: u8) -> bool {
    b & (1u8 << k) != 0
}

proof fn lemma_bits(b: u8, j: u8, k: u8)
    by (bit_vector)
    requires
        j < 8,
        k < 8,
    ensures
        (b | (1u8 << k)) & (1u8 << j) != 0 <==> (j == k || b & (1u8 << j) != 0),
        (b & !(1u8 << k)) & (1u8 << j) != 0 <==> (j != k && b & (1u8 << j) != 0),
        0xFFu8 & (1u8 << j) != 0,
{
}

/// How many of the first `n` frames are free.
pub open spec fn free_count(used: Seq<bool>, n: int) -> int
    decreases n,
{
    if n <= 0 {
        0
    } else {
        free_count(used, n - 1) + if used[n - 1] {
            0int
        } else {
            1
        }
    }
}

pub proof fn lemma_free_count_bounds(used: Seq<bool>, n: int)
    requires
        0 <= n,
    ensures
        0 <= free_count(used, n) <= n,
    decreases n,
{
    if n > 0 {
        lemma_free_count_bounds(used, n - 1);
    }
}

/// Changing one frame changes the number of free frames by that frame alone.
pub proof fn lemma_free_count_update(used: Seq<bool>, n: int, i: int, v: bool)
    requires
        0 <= i < used.len(),
        0 <= n <= used.len(),
    ensures
        free_count(used.update(i, v), n) == free_count(used, n) + (if i < n && used[i] && !v {
            1int
        } else if i < n && !used[i] && v {
            -1
        } else {
            0
        }),
    decreases n,
{
    if n > 0 {
        lemma_free_count_update(used, n - 1, i, v);
    }
}

/// Frames `from` up to `to` of the first `total` marked as used.
pub open spec fn with_used(used: Seq<bool>, from: int, to: int) -> Seq<bool> {
    Seq::new(used.len(), |i: int| used[i] || from <= i < to)
}

/// Whether `count` frames from `start` on are free and tracked.
pub open spec fn run_free(used: Seq<bool>, total: int, start: int, count: int) -> bool {
    &&& 0 <= start
    &&& start + count <= total
    &&& forall|i: int| start <= i < start + count ==> !#[trigger] used[i]
}

/// Whether a frame lies in a usable region.
pub open spec fn in_usable(regions: Seq<MemoryRegion>, frame: int) -> bool {
    exists|k: int|
        0 <= k < regions.len() && (#[trigger] regions[k]).kind == MemoryRegionKind::Usable
            && first_frame(regions[k]) <= frame < end_frame(regions[k])
}

/// The frame that a region starts in.
pub open spec fn first_frame(r: MemoryRegion) -> int {
    r.start.addr as int / 4096
}

/// The frame behind the last one that a region reaches into.
pub open spec fn end_frame(r: MemoryRegion) -> int {
    (r.start.addr + r.length + 4095) / 4096
}

/// The end of the highest of the first `n` regions.
pub open spec fn highest_end(regions: Seq<MemoryRegion>, n: int) -> int
    decreases n,
{
    if n <= 0 {
        0
    } else {
        let below = highest_end(regions, n - 1);
        let end = regions[n - 1].start.addr + regions[n - 1].length;
        if end > below {
            end
        } else {
            below
        }
    }
}

/// The number of frames to track: up to the highest region, at most `MAX_FRAMES`.
pub open spec fn frames_for(regions: Seq<MemoryRegion>) -> int {
    let n = (highest_end(regions, regions.len() as int) + 4095) / 4096;
    if n > MAX_FRAMES {
        MAX_FRAMES as int
    } else {
        n
    }
}

/// Whether no frame lies in two usable regions.
pub open spec fn usable_disjoint(regions: Seq<MemoryRegion>) -> bool {
    forall|j: int, k: int|
        #![trigger regions[j], regions[k]]
        0 <= j < k < regions.len() && regions[j].kind == MemoryRegionKind::Usable && regions[k].kind
            == MemoryRegionKind::Usable ==> end_frame(regions[j]) <= first_frame(regions[k])
            || end_frame(regions[k]) <= first_frame(regions[j])
}

/// Whether the addresses of all the regions can be computed with.
pub open spec fn regions_fit(regions: Seq<MemoryRegion>) -> bool {
    forall|k: int|
        0 <= k < regions.len() ==> (#[trigger] regions[k]).start.addr + regions[k].length + 4095
            <= u64::MAX
}

impl Pmm {
    /// Which frames are in use.
    pub closed spec fn used(&self) -> Seq<bool> {
        Seq::new(
            MAX_FRAMES as nat,
            |i: int| bit_set(self.bitmap@[i / 8], (i % 8) as u8),
        )
    }

    /// The number of frames that are tracked.
    pub closed spec fn total(&self) -> int {
        self.total_frames as int
    }

    /// The number of frames that are reported as free.
    pub closed spec fn reported_free(&self) -> int {
        self.free_frames as int
    }

    /// How many more frames are reported as free than there are. Not 0 only if usable
    /// regions of the memory map overlapped.
    pub open spec fn excess(&self) -> int {
        self.reported_free() - free_count(self.used(), self.total())
    }

    /// Frame 0 is never free, and frames that are not tracked are never free.
    pub closed spec fn wf(&self) -> bool {
        &&& self.bitmap@.len() == BITMAP_SIZE
        &&& self.total_frames <= MAX_FRAMES
        &&& 0 <= self.excess() <= MAX_MEMORY_REGIONS * MAX_FRAMES
        &&& self.used()[0]
        &&& forall|i: int| self.total_frames <= i < MAX_FRAMES ==> #[trigger] self.used()[i]
    }

    /// What a well-formed state promises.
    pub proof fn lemma_wf(&self)
        requires
            self.wf(),
        ensures
            0 <= self.total() <= MAX_FRAMES,
            self.used().len() == MAX_FRAMES,
            0 <= self.excess() <= MAX_MEMORY_REGIONS * MAX_FRAMES,
            self.used()[0],
            forall|i: int| self.total() <= i < MAX_FRAMES ==> #[trigger] self.used()[i],
    {
    }

    fn bitmap_set(&mut self, index: usize)
        requires
            old(self).bitmap@.len() == BITMAP_SIZE,
            index < MAX_FRAMES,
        ensures
            final(self).bitmap@.len() == BITMAP_SIZE,
            final(self).used() == old(self).used().update(index as int, true),
            final(self).total_frames == old(self).total_frames,
            final(self).free_frames == old(self).free_frames,
    {
        let byte: usize = index / 8;
        let off: u8 = (index % 8) as u8;
        let b: u8 = self.bitmap[byte];
        self.bitmap.set(byte, b | (1u8 << off));
        proof {
            let was = *old(self);
            assert forall|i: int| 0 <= i < MAX_FRAMES implies self.used()[i] == was.used().update(
                index as int,
                true,
            )[i] by {
                if i / 8 == byte {
                    lemma_bits(b, (i % 8) as u8, off);
                }
            }
            assert(self.used() =~= was.used().update(index as int, true));
        }
    }

    fn bitmap_clear(&mut self, index: usize)
        requires
            old(self).bitmap@.len() == BITMAP_SIZE,
            index < MAX_FRAMES,
        ensures
            final(self).bitmap@.len() == BITMAP_SIZE,
            final(self).used() == old(self).used().update(index as int, false),
            final(self).total_frames == old(self).total_frames,
            final(self).free_frames == old(self).free_frames,
    {
        let byte: usize = index / 8;
        let off: u8 = (index % 8) as u8;
        let b: u8 = self.bitmap[byte];
        self.bitmap.set(byte, b & !(1u8 << off));
        proof {
            let was = *old(self);
            assert forall|i: int| 0 <= i < MAX_FRAMES implies self.used()[i] == was.used().update(
                index as int,
                false,
            )[i] by {
                if i / 8 == byte {
                    lemma_bits(b, (i % 8) as u8, off);
                }
            }
            assert(self.used() =~= was.used().update(index as int, false));
        }
    }

    fn bitmap_test(&self, index: usize) -> (r: bool)
        requires
            self.bitmap@.len() == BITMAP_SIZE,
            index < MAX_FRAMES,
        ensures
            r == self.used()[index as int],
    {
        let off: u8 = (index % 8) as u8;
        self.bitmap[index / 8] & (1u8 << off) != 0
    }
}

/// Initialize from the memory map: the frames of usable regions are free, everything
/// else is used, and frame 0 is reserved.
pub fn init(memory_map: &MemoryMap) -> (r: Pmm)
    requires
        regions_fit(memory_map.regions@),
        memory_map.regions@.len() <= MAX_MEMORY_REGIONS,
    ensures
        r.wf(),
        r.total() == frames_for(memory_map.regions@),
        r.used() == Seq::new(
            MAX_FRAMES as nat,
            |i: int|
                !(0 < i < frames_for(memory_map.regions@) && in_usable(memory_map.regions@, i)),
        ),
        usable_disjoint(memory_map.regions@) ==> r.excess() == 0,
{
    let ghost regions = memory_map.regions@;
    let n: usize = memory_map.regions.len();
    let mut max_addr: u64 = 0;
    let mut k: usize = 0;
    while k < n
        invariant
            k <= n,
            n == regions.len(),
            regions == memory_map.regions@,
            regions_fit(regions),
            max_addr == highest_end(regions, k as int),
            max_addr + 4095 <= u64::MAX,
        decreases n - k,
    {
        let region: MemoryRegion = memory_map.regions[k];
        assert(region == regions[k as int]);
        let end: u64 = region.start.addr + region.length;
        if end > max_addr {
            max_addr = end;
        }
        k = k + 1;
    }
    let wanted: u64 = (max_addr + (PAGE_SIZE - 1)) / PAGE_SIZE;
    let total_frames: usize = if wanted > MAX_FRAMES as u64 {
        MAX_FRAMES
    } else {
        wanted as usize
    };
    let mut pmm = Pmm { bitmap: vec![0xFFu8; BITMAP_SIZE], total_frames, free_frames: 0 };
    proof {
        assert forall|i: int| 0 <= i < MAX_FRAMES implies #[trigger] pmm.used()[i] by {
            lemma_bits(0xFF, (i % 8) as u8, 0);
        }
        lemma_all_used(pmm.used(), total_frames as int);
    }
    let mut k: usize = 0;
    while k < n
        invariant
            k <= n,
            n == regions.len(),
            n <= 256,
            regions == memory_map.regions@,
            regions_fit(regions),
            pmm.bitmap@.len() == BITMAP_SIZE,
            pmm.total_frames == total_frames,
            total_frames <= MAX_FRAMES,
            pmm.free_frames <= k * MAX_FRAMES,
            pmm.excess() >= 0,
            usable_disjoint(regions) ==> pmm.excess() == 0,
            forall|i: int|
                0 <= i < MAX_FRAMES ==> (#[trigger] pmm.used()[i] <==> !(i < total_frames
                    && in_usable(regions.take(k as int), i))),
        decreases n - k,
    {
        let region: MemoryRegion = memory_map.regions[k];
        assert(region == regions[k as int]);
        let ghost had = pmm.used();
        if region.kind == MemoryRegionKind::Usable {
            let first: u64 = region.start.addr / PAGE_SIZE;
            let end: u64 = (region.start.addr + region.length + (PAGE_SIZE - 1)) / PAGE_SIZE;
            let clamped: usize = if end > total_frames as u64 {
                total_frames
            } else {
                end as usize
            };
            let mut frame: u64 = first;
            while frame < clamped as u64
                invariant
                    first <= frame,
                    frame > first ==> frame <= clamped,
                    clamped <= total_frames <= MAX_FRAMES,
                    k < n <= 256,
                    n == regions.len(),
                    region == regions[k as int],
                    region.kind == MemoryRegionKind::Usable,
                    first == first_frame(region),
                    clamped <= end_frame(region),
                    pmm.bitmap@.len() == BITMAP_SIZE,
                    pmm.total_frames == total_frames,
                    pmm.free_frames <= k * MAX_FRAMES + frame - first,
                    pmm.excess() >= 0,
                    usable_disjoint(regions) ==> pmm.excess() == 0,
                    had.len() == MAX_FRAMES,
                    forall|i: int|
                        0 <= i < MAX_FRAMES ==> (#[trigger] had[i] <==> !(i < total_frames
                            && in_usable(regions.take(k as int), i))),
                    forall|i: int|
                        0 <= i < MAX_FRAMES ==> #[trigger] pmm.used()[i] == (had[i] && !(first <= i
                            < frame)),
                decreases clamped - frame,
            {
                let ghost u = pmm.used();
                proof {
                    lemma_free_count_update(u, total_frames as int, frame as int, false);
                    if usable_disjoint(regions) {
                        assert(had[frame as int]) by {
                            lemma_not_before(regions, k as int, frame as int);
                        }
                    }
                }
                pmm.bitmap_clear(frame as usize);
                pmm.free_frames = pmm.free_frames + 1;
                frame = frame + 1;
            }
            proof {
                assert forall|i: int| 0 <= i < MAX_FRAMES implies (#[trigger] pmm.used()[i]
                    <==> !(i < total_frames && in_usable(regions.take(k + 1), i))) by {
                    lemma_in_usable_step(regions, k as int, i);
                }
            }
        } else {
            proof {
                assert forall|i: int| 0 <= i < MAX_FRAMES implies (#[trigger] pmm.used()[i]
                    <==> !(i < total_frames && in_usable(regions.take(k + 1), i))) by {
                    lemma_in_usable_step(regions, k as int, i);
                }
            }
        }
        k = k + 1;
    }
    assert(regions.take(k as int) =~= regions);
    proof {
        lemma_free_count_bounds(pmm.used(), total_frames as int);
    }
    if !pmm.bitmap_test(0) {
        let ghost u = pmm.used();
        proof {
            lemma_free_count_update(u, total_frames as int, 0, true);
            lemma_free_count_bounds(u.update(0, true), total_frames as int);
        }
        pmm.bitmap_set(0);
        pmm.free_frames = pmm.free_frames - 1;
    }
    assert(pmm.used() =~= Seq::new(
        MAX_FRAMES as nat,
        |i: int| !(0 < i < frames_for(regions) && in_usable(regions, i)),
    ));
    pmm
}

/// Where every frame is in use, none is free.
pub proof fn lemma_all_used(used: Seq<bool>, n: int)
    requires
        0 <= n <= used.len(),
        forall|i: int| 0 <= i < n ==> #[trigger] used[i],
    ensures
        free_count(used, n) == 0,
    decreases n,
{
    if n > 0 {
        lemma_all_used(used, n - 1);
    }
}

proof fn lemma_in_usable_step(regions: Seq<MemoryRegion>, k: int, frame: int)
    requires
        0 <= k < regions.len(),
    ensures
        in_usable(regions.take(k + 1), frame) <==> in_usable(regions.take(k), frame) || (
        regions[k].kind == MemoryRegionKind::Usable && first_frame(regions[k]) <= frame
            < end_frame(regions[k])),
{
    let a = regions.take(k);
    let b = regions.take(k + 1);
    if in_usable(a, frame) {
        let j = choose|j: int|
            0 <= j < a.len() && (#[trigger] a[j]).kind == MemoryRegionKind::Usable && first_frame(
                a[j],
            ) <= frame < end_frame(a[j]);
        assert(b[j] == a[j]);
    }
    if regions[k].kind == MemoryRegionKind::Usable && first_frame(regions[k]) <= frame < end_frame(
        regions[k],
    ) {
        assert(b[k] == regions[k]);
    }
    if in_usable(b, frame) {
        let j = choose|j: int|
            0 <= j < b.len() && (#[trigger] b[j]).kind == MemoryRegionKind::Usable && first_frame(
                b[j],
            ) <= frame < end_frame(b[j]);
        if j < k {
            assert(a[j] == b[j]);
        }
    }
}

proof fn lemma_not_before(regions: Seq<MemoryRegion>, k: int, frame: int)
    requires
        usable_disjoint(regions),
        0 <= k < regions.len(),
        regions[k].kind == MemoryRegionKind::Usable,
        first_frame(regions[k]) <= frame < end_frame(regions[k]),
    ensures
        !in_usable(regions.take(k), frame),
{
    let a = regions.take(k);
    if in_usable(a, frame) {
        let j = choose|j: int|
            0 <= j < a.len() && (#[trigger] a[j]).kind == MemoryRegionKind::Usable && first_frame(
                a[j],
            ) <= frame < end_frame(a[j]);
        assert(a[j] == regions[j]);
    }
}

/// Allocate a single physical frame: the first free one. `None` if none is left.
pub fn alloc_frame(pmm: &mut Pmm) -> (r: Option<PhysAddr>)
    requires
        old(pmm).wf(),
    ensures
        final(pmm).wf(),
        final(pmm).total() == old(pmm).total(),
        final(pmm).excess() == old(pmm).excess(),
        match r {
            Some(frame) => {
                let i = frame.addr as int / 4096;
                &&& frame.addr % 4096 == 0
                &&& 0 < i < old(pmm).total()
                &&& !old(pmm).used()[i]
                &&& forall|k: int| 0 <= k < i ==> #[trigger] old(pmm).used()[k]
                &&& final(pmm).used() == old(pmm).used().update(i, true)
                &&& final(pmm).reported_free() == old(pmm).reported_free() - 1
            },
            None => {
                &&& forall|k: int| 0 <= k < old(pmm).total() ==> #[trigger] old(pmm).used()[k]
                &&& final(pmm).used() == old(pmm).used()
                &&& final(pmm).reported_free() == old(pmm).reported_free()
            },
        },
{
    let mut index: usize = 1;
    while index < pmm.total_frames
        invariant
            1 <= index,
            index > 1 ==> index <= pmm.total_frames,
            pmm.wf(),
            *pmm == *old(pmm),
            forall|k: int| 0 <= k < index && k < MAX_FRAMES ==> #[trigger] pmm.used()[k],
        decreases pmm.total_frames - index,
    {
        if !pmm.bitmap_test(index) {
            proof {
                lemma_free_count_update(
                    pmm.used(),
                    pmm.total_frames as int,
                    index as int,
                    true,
                );
                lemma_free_count_bounds(
                    pmm.used().update(index as int, true),
                    pmm.total_frames as int,
                );
            }
            pmm.bitmap_set(index);
            pmm.free_frames = pmm.free_frames - 1;
            return Some(PhysAddr::new(index as u64 * PAGE_SIZE));
        }
        index = index + 1;
    }
    None
}

/// Free a previously allocated physical frame. Frame 0 is never freed.
pub fn free_frame(pmm: &mut Pmm, frame: PhysAddr)
    requires
        old(pmm).wf(),
        frame.addr % 4096 == 0,
        0 < frame.addr as int / 4096 < old(pmm).total(),
        old(pmm).used()[frame.addr as int / 4096],
    ensures
        final(pmm).wf(),
        final(pmm).total() == old(pmm).total(),
        final(pmm).excess() == old(pmm).excess(),
        final(pmm).used() == old(pmm).used().update(frame.addr as int / 4096, false),
        final(pmm).reported_free() == old(pmm).reported_free() + 1,
{
    let index: usize = (frame.addr / PAGE_SIZE) as usize;
    proof {
        lemma_free_count_update(pmm.used(), pmm.total_frames as int, index as int, false);
        lemma_free_count_bounds(pmm.used(), pmm.total_frames as int);
    }
    pmm.bitmap_clear(index);
    pmm.free_frames = pmm.free_frames + 1;
}

/// Marks the frames from `from` up to `to` as used.
fn take_frames(pmm: &mut Pmm, from: usize, to: usize)
    requires
        old(pmm).wf(),
        from <= to <= old(pmm).total(),
    ensures
        final(pmm).wf(),
        final(pmm).total() == old(pmm).total(),
        final(pmm).excess() == old(pmm).excess(),
        final(pmm).used() == with_used(old(pmm).used(), from as int, to as int),
{
    let mut frame: usize = from;
    assert(pmm.used() =~= with_used(old(pmm).used(), from as int, from as int));
    while frame < to
        invariant
            from <= frame <= to <= pmm.total(),
            pmm.wf(),
            pmm.total() == old(pmm).total(),
            pmm.excess() == old(pmm).excess(),
            pmm.used() == with_used(old(pmm).used(), from as int, frame as int),
        decreases to - frame,
    {
        if !pmm.bitmap_test(frame) {
            proof {
                lemma_free_count_update(pmm.used(), pmm.total_frames as int, frame as int, true);
                lemma_free_count_bounds(
                    pmm.used().update(frame as int, true),
                    pmm.total_frames as int,
                );
            }
            pmm.bitmap_set(frame);
            pmm.free_frames = pmm.free_frames - 1;
        }
        frame = frame + 1;
        assert(pmm.used() =~= with_used(old(pmm).used(), from as int, frame as int));
    }
}

/// Allocate contiguous physical frames: the lowest run of `count` free ones. `None` if
/// there is no such run, or no frame was asked for.
pub fn alloc_contiguous(pmm: &mut Pmm, count: usize) -> (r: Option<PhysAddr>)
    requires
        old(pmm).wf(),
    ensures
        final(pmm).wf(),
        final(pmm).total() == old(pmm).total(),
        final(pmm).excess() == old(pmm).excess(),
        match r {
            Some(frame) => {
                let start = frame.addr as int / 4096;
                &&& count > 0
                &&& frame.addr % 4096 == 0
                &&& start > 0
                &&& run_free(old(pmm).used(), old(pmm).total(), start, count as int)
                &&& forall|s: int|
                    0 <= s < start ==> !#[trigger] run_free(
                        old(pmm).used(),
                        old(pmm).total(),
                        s,
                        count as int,
                    )
                &&& final(pmm).used() == with_used(old(pmm).used(), start, start + count)
            },
            None => {
                &&& final(pmm).used() == old(pmm).used()
                &&& count == 0 || forall|s: int|
                    !#[trigger] run_free(old(pmm).used(), old(pmm).total(), s, count as int)
            },
        },
{
    if count == 0 {
        return None;
    }
    let ghost used = pmm.used();
    let ghost total = pmm.total();
    let mut run_length: usize = 0;
    let mut index: usize = 0;
    while index < pmm.total_frames
        invariant
            index <= pmm.total_frames,
            pmm.wf(),
            *pmm == *old(pmm),
            used == pmm.used(),
            total == pmm.total(),
            count > 0,
            run_length <= index,
            run_length < count,
            forall|i: int| index - run_length <= i < index ==> !#[trigger] used[i],
            run_length < index ==> used[index - run_length - 1],
            forall|s: int|
                s + count <= index ==> !#[trigger] run_free(used, total, s, count as int),
        decreases pmm.total_frames - index,
    {
        if !pmm.bitmap_test(index) {
            run_length = run_length + 1;
            if run_length == count {
                let start: usize = index + 1 - count;
                assert(run_free(used, total, start as int, count as int));
                take_frames(pmm, start, index + 1);
                return Some(PhysAddr::new(start as u64 * PAGE_SIZE));
            }
        } else {
            run_length = 0;
        }
        proof {
            assert forall|s: int| s + count <= index + 1 implies !#[trigger] run_free(
                used,
                total,
                s,
                count as int,
            ) by {
                if s + count == index + 1 && s >= 0 {
                    assert(used[index - run_length]);
                }
            }
        }
        index = index + 1;
    }
    None
}

/// Returns the total number of physical frames that are tracked.
pub fn total_frames(pmm: &Pmm) -> (r: usize)
    ensures
        r == pmm.total(),
{
    pmm.total_frames
}

/// Returns the number of free physical frames.
pub fn free_frames(pmm: &Pmm) -> (r: usize)
    ensures
        r == pmm.reported_free(),
{
    pmm.free_frames
}

/// Returns the total usable physical memory in bytes.
pub fn total_usable_bytes(pmm: &Pmm) -> (r: u64)
    requires
        pmm.wf(),
    ensures
        r == pmm.reported_free() * 4096,
{
    proof {
        lemma_free_count_bounds(pmm.used(), pmm.total_frames as int);
    }
    pmm.free_frames as u64 * PAGE_SIZE
}

/// Check if a physical frame is currently allocated.
pub fn is_allocated(pmm: &Pmm, frame: PhysAddr) -> (r: bool)
    requires
        pmm.wf(),
        (frame.addr as int / 4096) < pmm.total(),
    ensures
        r == pmm.used()[frame.addr as int / 4096],
{
    pmm.bitmap_test((frame.addr / PAGE_SIZE) as usize)
}

/// Mark a physical address range as used, with the frames that it only touches.
pub fn mark_region_used(pmm: &mut Pmm, phys_start: u64, phys_end: u64)
    requires
        old(pmm).wf(),
        phys_end + 4095 <= u64::MAX,
    ensures
        final(pmm).wf(),
        final(pmm).total() == old(pmm).total(),
        final(pmm).excess() == old(pmm).excess(),
        final(pmm).used() == with_used(
            old(pmm).used(),
            phys_start as int / 4096,
            (phys_end + 4095) / 4096,
        ),
{
    let start_frame: u64 = phys_start / PAGE_SIZE;
    let end_frame: u64 = (phys_end + (PAGE_SIZE - 1)) / PAGE_SIZE;
    let total: u64 = pmm.total_frames as u64;
    let to: u64 = if end_frame < total {
        end_frame
    } else {
        total
    };
    if start_frame < to {
        take_frames(pmm, start_frame as usize, to as usize);
    }
    assert(pmm.used() =~= with_used(
        old(pmm).used(),
        phys_start as int / 4096,
        (phys_end + 4095) / 4096,
    ));
}

/// Freeing the frame that was just allocated gives back the state before.
pub proof fn law_alloc_then_free(used: Seq<bool>, i: int)
    requires
        0 <= i < used.len(),
        !used[i],
    ensures
        used.update(i, true).update(i, false) == used,
{
    assert(used.update(i, true).update(i, false) =~= used);
}

/// Two allocations with nothing freed in between give different frames.
pub proof fn law_allocations_distinct(used: Seq<bool>, i: int, j: int)
    requires
        0 <= i < used.len(),
        0 <= j < used.len(),
        !used[i],
        !used.update(i, true)[j],
    ensures
        i != j,
        used.update(i, true).update(j, true)[i],
{
}

} // verus!
