//! Physical memory: the direct map and the frame allocator.
//!
//! Free memory is kept as a short list of runs of 4 KiB frames. Allocation always
//! hands out the lowest free frame.
use vstd::prelude::*;

verus! {

/// `frame` is the lowest of `before`, and `after` is what is left without it.
pub open spec fn takes_lowest(before: Set<int>, frame: int, after: Set<int>) -> bool {
    &&& before.contains(frame)
    &&& forall|f: int| #[trigger] before.contains(f) ==> frame <= f
    &&& after == before.remove(frame)
}

/// Runs that the frame allocator can hold.
pub const MAX_REGIONS: usize = 64;

/// Bytes in a frame.
pub const FRAME_SIZE: u64 = 4096;

/// The memory map's mark for memory that is free to use.
pub const MEMMAP_USABLE: u64 = 0;

/// A run of free frames, from `start` up to but not with `end`.
#[derive(Clone, Copy, Debug, PartialEq, Eq, Structural)]
pub struct FreeRegion {
    pub start: u64,
    pub end: u64,
}

impl FreeRegion {
    /// The run holds this frame.
    pub open spec fn holds(self, frame: int) -> bool {
        self.start <= frame < self.end
    }

    /// Frames in the run.
    pub fn len(&self) -> (r: u64)
        ensures
            r == if self.start <= self.end {
                self.end - self.start
            } else {
                0
            },
    {
        self.end.saturating_sub(self.start)
    }
}

/// The frame allocator: a list of runs of free frames.
pub struct FrameAllocator {
    pub regions: [Option<FreeRegion>; MAX_REGIONS],
}

/// The slot holds a run with this frame in it.
pub open spec fn slot_holds(slot: Option<FreeRegion>, frame: int) -> bool {
    slot is Some && slot->0.holds(frame)
}

/// Some slot holds this frame.
pub open spec fn covered(regions: Seq<Option<FreeRegion>>, frame: int) -> bool {
    exists|i: int| 0 <= i < regions.len() && slot_holds(#[trigger] regions[i], frame)
}

/// Two slots have no frame in common.
pub open spec fn slots_apart(a: Option<FreeRegion>, b: Option<FreeRegion>) -> bool {
    a is Some && b is Some ==> a->0.end <= b->0.start || b->0.end <= a->0.start
}

/// No run is empty and no frame is in two runs.
pub open spec fn regions_wf(regions: Seq<Option<FreeRegion>>) -> bool {
    &&& forall|i: int|
        0 <= i < regions.len() && (#[trigger] regions[i]) is Some ==> regions[i]->0.start
            < regions[i]->0.end
    &&& forall|i: int, j: int|
        0 <= i < j < regions.len() ==> slots_apart(#[trigger] regions[i], #[trigger] regions[j])
}

/// The first `n` slots, and no others, hold runs; they ascend and there is a gap
/// between each two of them.
pub open spec fn regions_sorted(regions: Seq<Option<FreeRegion>>, n: int) -> bool {
    &&& 0 <= n <= regions.len()
    &&& forall|i: int|
        0 <= i < n ==> (#[trigger] regions[i]) is Some && regions[i]->0.start < regions[i]->0.end
    &&& forall|i: int| n <= i < regions.len() ==> (#[trigger] regions[i]) is None
    &&& forall|i: int, j: int|
        0 <= i < j < n ==> (#[trigger] regions[i])->0.end < (#[trigger] regions[j])->0.start
}

/// Some run among the first `n` holds this frame.
spec fn live_covers(live: Seq<FreeRegion>, n: int, frame: int) -> bool {
    exists|i: int| 0 <= i < n && (#[trigger] live[i]).holds(frame)
}

/// None of the first `n` runs is empty.
spec fn live_filled(live: Seq<FreeRegion>, n: int) -> bool {
    forall|i: int| 0 <= i < n ==> (#[trigger] live[i]).start < live[i].end
}

/// The first `n` runs ascend by their start.
spec fn live_ascends(live: Seq<FreeRegion>, n: int) -> bool {
    forall|i: int, j: int| 0 <= i <= j < n ==> (#[trigger] live[i]).start <= (#[trigger] live[j]).start
}

/// The runs of `regions`, packed to the front, with their number.
fn collect_live(regions: &[Option<FreeRegion>; MAX_REGIONS]) -> (r: (
    [FreeRegion; MAX_REGIONS],
    usize,
))
    ensures
        r.1 <= MAX_REGIONS,
        live_filled(r.0@, r.1 as int),
        forall|f: int| live_covers(r.0@, r.1 as int, f) == covered(regions@, f),
{
    let mut live: [FreeRegion; MAX_REGIONS] = [FreeRegion { start: 0, end: 0 }; MAX_REGIONS];
    let mut n: usize = 0;
    let mut i: usize = 0;
    while i < MAX_REGIONS
        invariant
            n <= i <= MAX_REGIONS,
            live_filled(live@, n as int),
            forall|f: int|
                live_covers(live@, n as int, f) == covered(regions@.take(i as int), f),
        decreases MAX_REGIONS - i,
    {
        let ghost before = live@;
        let ghost m = n as int;
        if let Some(r) = regions[i] {
            if r.start < r.end {
                live[n] = r;
                n = n + 1;
            }
        }
        proof {
            let old_part = regions@.take(i as int);
            let new_part = regions@.take(i + 1);
            assert forall|f: int| live_covers(live@, n as int, f) == covered(new_part, f) by {
                if live_covers(live@, n as int, f) {
                    let k = choose|k: int| 0 <= k < n && (#[trigger] live@[k]).holds(f);
                    if k < m {
                        assert(before[k].holds(f));
                        assert(live_covers(before, m, f));
                        let q = choose|q: int|
                            0 <= q < old_part.len() && slot_holds(#[trigger] old_part[q], f);
                        assert(slot_holds(new_part[q], f));
                    } else {
                        assert(slot_holds(new_part[i as int], f));
                    }
                }
                if covered(new_part, f) {
                    let q = choose|q: int|
                        0 <= q < new_part.len() && slot_holds(#[trigger] new_part[q], f);
                    if q < i {
                        assert(slot_holds(old_part[q], f));
                        assert(live_covers(before, m, f));
                        let k = choose|k: int| 0 <= k < m && (#[trigger] before[k]).holds(f);
                        assert(live@[k].holds(f));
                    } else {
                        assert(live@[m].holds(f));
                    }
                }
            }
        }
        i = i + 1;
    }
    assert(regions@.take(MAX_REGIONS as int) =~= regions@);
    (live, n)
}

/// Sorts the first `n` runs by their start.
fn sort_live(live: &mut [FreeRegion; MAX_REGIONS], n: usize)
    requires
        n <= MAX_REGIONS,
        live_filled(old(live)@, n as int),
    ensures
        live_filled(final(live)@, n as int),
        live_ascends(final(live)@, n as int),
        forall|f: int|
            live_covers(final(live)@, n as int, f) == live_covers(old(live)@, n as int, f),
{
    let ghost first = live@;
    let mut i: usize = 1;
    while i < n
        invariant
            1 <= i,
            i <= n || n == 0,
            n <= MAX_REGIONS,
            live_filled(live@, n as int),
            live_ascends(live@, if n == 0 { 0 } else { i as int }),
            forall|f: int| live_covers(live@, n as int, f) == live_covers(first, n as int, f),
        decreases n - i,
    {
        let mut j: usize = i;
        while j > 0 && live[j - 1].start > live[j].start
            invariant
                j <= i < n <= MAX_REGIONS,
                live_filled(live@, n as int),
                forall|a: int, b: int|
                    0 <= a <= b <= i && a != j && b != j ==> (#[trigger] live@[a]).start <= (
                    #[trigger] live@[b]).start,
                forall|b: int| j < b <= i ==> live@[j as int].start <= (#[trigger] live@[b]).start,
                forall|f: int| live_covers(live@, n as int, f) == live_covers(first, n as int, f),
            decreases j,
        {
            let ghost before = live@;
            let lower = live[j - 1];
            let upper = live[j];
            live[j - 1] = upper;
            live[j] = lower;
            proof {
                lemma_swap_covers(before, live@, n as int, j - 1, j as int);
            }
            j = j - 1;
        }
        proof {
            assert forall|a: int, b: int| 0 <= a <= b < i + 1 implies (#[trigger] live@[a]).start
                <= (#[trigger] live@[b]).start by {
                if b == j && a < j {
                    assert(live@[a].start <= live@[j - 1].start);
                }
            }
        }
        i = i + 1;
    }
}

/// Swapping two runs keeps the frames they hold.
proof fn lemma_swap_covers(before: Seq<FreeRegion>, after: Seq<FreeRegion>, n: int, a: int, b: int)
    requires
        0 <= a < n <= before.len(),
        0 <= b < n,
        after == before.update(a, before[b]).update(b, before[a]),
    ensures
        forall|f: int| live_covers(after, n, f) == live_covers(before, n, f),
{
    assert forall|f: int| live_covers(after, n, f) == live_covers(before, n, f) by {
        if live_covers(after, n, f) {
            let k = choose|k: int| 0 <= k < n && (#[trigger] after[k]).holds(f);
            let q = if k == a { b } else if k == b { a } else { k };
            assert(before[q].holds(f));
        }
        if live_covers(before, n, f) {
            let k = choose|k: int| 0 <= k < n && (#[trigger] before[k]).holds(f);
            let q = if k == a { b } else if k == b { a } else { k };
            assert(after[q].holds(f));
        }
    }
}

/// Merges runs that touch or overlap. The first `n` runs ascend.
fn merge_live(live: &[FreeRegion; MAX_REGIONS], n: usize) -> (r: (
    [Option<FreeRegion>; MAX_REGIONS],
    usize,
))
    requires
        1 <= n <= MAX_REGIONS,
        live_filled(live@, n as int),
        live_ascends(live@, n as int),
    ensures
        1 <= r.1 <= n,
        regions_sorted(r.0@, r.1 as int),
        forall|f: int| covered(r.0@, f) == live_covers(live@, n as int, f),
{
    let mut out: [Option<FreeRegion>; MAX_REGIONS] = [None; MAX_REGIONS];
    let mut oi: usize = 0;
    let mut cur = live[0];
    let mut k: usize = 1;
    while k < n
        invariant
            1 <= k <= n <= MAX_REGIONS,
            oi < k,
            live_filled(live@, n as int),
            live_ascends(live@, n as int),
            regions_sorted(out@, oi as int),
            cur.start < cur.end,
            oi > 0 ==> out@[oi - 1]->0.end < cur.start,
            forall|j: int| k <= j < n ==> cur.start <= (#[trigger] live@[j]).start,
            forall|f: int| #[trigger]
                live_covers(live@, k as int, f) == (covered(out@, f) || cur.holds(f)),
        decreases n - k,
    {
        let ghost out0 = out@;
        let ghost cur0 = cur;
        let ghost oi0 = oi as int;
        if cur.end >= live[k].start {
            if live[k].end > cur.end {
                cur.end = live[k].end;
            }
        } else {
            out[oi] = Some(cur);
            oi = oi + 1;
            cur = live[k];
        }
        k = k + 1;
        proof {
            if oi > oi0 {
                lemma_push_covers(out0, out@, oi0, cur0);
            }
            assert forall|f: int| #[trigger]
                live_covers(live@, k as int, f) == (covered(out@, f) || cur.holds(f)) by {
                lemma_live_covers_step(live@, k - 1, f);
                assert(live_covers(live@, k - 1, f) == (covered(out0, f) || cur0.holds(f)));
            }
        }
    }
    let ghost out0 = out@;
    out[oi] = Some(cur);
    proof {
        lemma_push_covers(out0, out@, oi as int, cur);
    }
    oi = oi + 1;
    (out, oi)
}

/// The runs up to `k` hold a frame if those below `k` do or run `k` does.
proof fn lemma_live_covers_step(live: Seq<FreeRegion>, k: int, f: int)
    requires
        0 <= k < live.len(),
    ensures
        live_covers(live, k + 1, f) == (live_covers(live, k, f) || live[k].holds(f)),
{
    if live_covers(live, k + 1, f) {
        let q = choose|q: int| 0 <= q < k + 1 && (#[trigger] live[q]).holds(f);
        if q < k {
            assert(live[q].holds(f));
        }
    }
    if live_covers(live, k, f) {
        let q = choose|q: int| 0 <= q < k && (#[trigger] live[q]).holds(f);
        assert(live[q].holds(f));
    }
}

/// Filling an empty slot with a run adds the run's frames.
proof fn lemma_push_covers(
    before: Seq<Option<FreeRegion>>,
    after: Seq<Option<FreeRegion>>,
    at: int,
    run: FreeRegion,
)
    requires
        0 <= at < before.len(),
        before[at] is None,
        after == before.update(at, Some(run)),
    ensures
        forall|f: int| covered(after, f) == (covered(before, f) || run.holds(f)),
{
    assert forall|f: int| covered(after, f) == (covered(before, f) || run.holds(f)) by {
        if covered(after, f) {
            let q = choose|q: int| 0 <= q < after.len() && slot_holds(#[trigger] after[q], f);
            if q != at {
                assert(slot_holds(before[q], f));
            }
        }
        if covered(before, f) {
            let q = choose|q: int| 0 <= q < before.len() && slot_holds(#[trigger] before[q], f);
            assert(slot_holds(after[q], f));
        }
        if run.holds(f) {
            assert(slot_holds(after[at], f));
        }
    }
}

/// Some slot is free.
pub open spec fn has_free_slot(regions: Seq<Option<FreeRegion>>) -> bool {
    exists|i: int| 0 <= i < regions.len() && (#[trigger] regions[i]) is None
}

/// Some run ends right before the frame or starts right behind it.
pub open spec fn touches(regions: Seq<Option<FreeRegion>>, frame: int) -> bool {
    exists|i: int|
        0 <= i < regions.len() && (#[trigger] regions[i]) is Some && (regions[i]->0.end == frame
            || regions[i]->0.start == frame + 1)
}

/// A frame that is given back is not lost: a run touches it, or a slot is free.
pub open spec fn returnable(regions: Seq<Option<FreeRegion>>, frame: int) -> bool {
    touches(regions, frame) || has_free_slot(regions)
}

/// Taking `frame` from the slots: the run that starts with it is one frame shorter, or its
/// slot is free if it had no other. All other slots are as before, so that a slot that was
/// free stays free.
pub open spec fn run_shortened(
    before: Seq<Option<FreeRegion>>,
    after: Seq<Option<FreeRegion>>,
    frame: u64,
) -> bool {
    &&& exists|i: int|
        {
            &&& 0 <= i < before.len()
            &&& #[trigger] before[i] is Some
            &&& before[i]->0.start == frame
            &&& after == before.update(
                i,
                if frame + 1 < before[i]->0.end {
                    Some(FreeRegion { start: (frame + 1) as u64, end: before[i]->0.end })
                } else {
                    None
                },
            )
        }
    &&& forall|i: int| 0 <= i < before.len() && #[trigger] before[i] is None ==> after[i] is None
}

impl FrameAllocator {
    /// The free frames.
    pub open spec fn frames(self) -> Set<int> {
        Set::new(|f: int| covered(self.regions@, f))
    }

    /// No run is empty and no frame is in two runs.
    pub open spec fn wf(self) -> bool {
        regions_wf(self.regions@)
    }

    /// The runs stand at the front, ascend and have gaps between them.
    pub open spec fn canonical(self) -> bool {
        exists|n: int| regions_sorted(self.regions@, n)
    }

    /// An allocator without free frames.
    pub fn empty() -> (r: FrameAllocator)
        ensures
            forall|i: int| 0 <= i < MAX_REGIONS ==> #[trigger] r.regions@[i] is None,
            r.frames() == Set::<int>::empty(),
            r.wf(),
    {
        let r = FrameAllocator { regions: [None; MAX_REGIONS] };
        assert(r.frames() =~= Set::<int>::empty());
        r
    }

    /// Takes all free frames away.
    pub fn clear(&mut self)
        ensures
            forall|i: int| 0 <= i < MAX_REGIONS ==> #[trigger] final(self).regions@[i] is None,
            final(self).frames() == Set::<int>::empty(),
            final(self).wf(),
    {
        let mut i: usize = 0;
        while i < MAX_REGIONS
            invariant
                i <= MAX_REGIONS,
                forall|j: int| 0 <= j < i ==> #[trigger] self.regions@[j] is None,
            decreases MAX_REGIONS - i,
        {
            self.regions[i] = None;
            i = i + 1;
        }
        assert(self.frames() =~= Set::<int>::empty());
    }

    /// The lowest free slot.
    fn first_free_slot(&self) -> (r: Option<usize>)
        ensures
            match r {
                Some(i) => i < MAX_REGIONS && self.regions@[i as int] is None && forall|j: int|
                    0 <= j < i ==> #[trigger] self.regions@[j] is Some,
                None => forall|j: int|
                    0 <= j < MAX_REGIONS ==> #[trigger] self.regions@[j] is Some,
            },
    {
        let mut i: usize = 0;
        while i < MAX_REGIONS
            invariant
                i <= MAX_REGIONS,
                forall|j: int| 0 <= j < i ==> #[trigger] self.regions@[j] is Some,
            decreases MAX_REGIONS - i,
        {
            if self.regions[i].is_none() {
                return Some(i);
            }
            i = i + 1;
        }
        None
    }

    /// Writes a run into the lowest free slot. An empty run is left out, and so is
    /// any run when all slots are taken.
    pub fn add_region(&mut self, start: u64, end: u64)
        ensures
            start < end && has_free_slot(old(self).regions@) ==> exists|i: int|
                {
                    &&& 0 <= i < MAX_REGIONS
                    &&& old(self).regions@[i] is None
                    &&& forall|j: int| 0 <= j < i ==> #[trigger] old(self).regions@[j] is Some
                    &&& final(self).regions@ == #[trigger] old(self).regions@.update(
                        i,
                        Some(FreeRegion { start, end }),
                    )
                },
            start < end && has_free_slot(old(self).regions@) ==> final(self).frames() == old(
                self,
            ).frames().union(vstd::set_lib::set_int_range(start as int, end as int)),
            start >= end || !has_free_slot(old(self).regions@) ==> *final(self) == *old(self),
    {
        if start >= end {
            return;
        }
        if let Some(i) = self.first_free_slot() {
            let run = FreeRegion { start, end };
            self.regions[i] = Some(run);
            proof {
                lemma_push_covers(old(self).regions@, self.regions@, i as int, run);
                assert(self.frames() =~= old(self).frames().union(
                    vstd::set_lib::set_int_range(start as int, end as int),
                ));
            }
        }
    }

    /// Takes the lowest free frame. It can be given back.
    pub fn allocate(&mut self) -> (r: Option<u64>)
        requires
            old(self).wf(),
        ensures
            final(self).wf(),
            match r {
                Some(frame) => takes_lowest(
                    old(self).frames(),
                    frame as int,
                    final(self).frames(),
                ) && returnable(final(self).regions@, frame as int) && run_shortened(
                    old(self).regions@,
                    final(self).regions@,
                    frame,
                ),
                None => old(self).frames() == Set::<int>::empty() && *final(self) == *old(self),
            },
    {
        let mut best_idx: Option<usize> = None;
        let mut best_start: u64 = u64::MAX;
        let mut i: usize = 0;
        while i < MAX_REGIONS
            invariant
                i <= MAX_REGIONS,
                *self == *old(self),
                self.wf(),
                match best_idx {
                    Some(b) => b < i && self.regions@[b as int] is Some
                        && self.regions@[b as int]->0.start == best_start,
                    None => best_start == u64::MAX && forall|j: int|
                        0 <= j < i ==> #[trigger] self.regions@[j] is None,
                },
                forall|j: int|
                    0 <= j < i && (#[trigger] self.regions@[j]) is Some ==> best_start
                        <= self.regions@[j]->0.start,
            decreases MAX_REGIONS - i,
        {
            if let Some(r) = self.regions[i] {
                if r.start < r.end && r.start < best_start {
                    best_start = r.start;
                    best_idx = Some(i);
                }
            }
            i = i + 1;
        }
        match best_idx {
            Some(b) => {
                let r = self.regions[b].unwrap();
                let f: u64 = r.start;
                let ghost before = self.regions@;
                if f + 1 >= r.end {
                    self.regions[b] = None;
                } else {
                    self.regions[b] = Some(FreeRegion { start: f + 1, end: r.end });
                }
                proof {
                    assert(slot_holds(before[b as int], f as int));
                    assert forall|x: int|
                        covered(self.regions@, x) == (covered(before, x) && x != f) by {
                        if covered(self.regions@, x) {
                            let q = choose|q: int|
                                0 <= q < self.regions@.len() && slot_holds(
                                    #[trigger] self.regions@[q],
                                    x,
                                );
                            assert(slot_holds(before[q], x));
                            if q < b {
                                assert(slots_apart(before[q], before[b as int]));
                            } else if b < q {
                                assert(slots_apart(before[b as int], before[q]));
                            }
                        }
                        if covered(before, x) && x != f {
                            let q = choose|q: int|
                                0 <= q < before.len() && slot_holds(#[trigger] before[q], x);
                            assert(slot_holds(self.regions@[q], x));
                        }
                    }
                    assert(self.frames() =~= old(self).frames().remove(f as int));
                    let left = self.regions@[b as int];
                    assert(left is None || left->0.start == f + 1);
                    assert(before[b as int]->0.start == f);
                    assert(self.regions@ =~= before.update(b as int, left));
                }
                Some(f)
            },
            None => {
                assert(self.frames() =~= Set::<int>::empty());
                None
            },
        }
    }

    /// Gives a frame back. It is lost if no run touches it and all slots are taken.
    pub fn free(&mut self, frame: u64)
        requires
            old(self).wf(),
            frame < u64::MAX,
        ensures
            final(self).wf(),
            final(self).canonical(),
            final(self).frames() == if returnable(old(self).regions@, frame as int) {
                old(self).frames().insert(frame as int)
            } else {
                old(self).frames()
            },
    {
        let ghost before = self.regions@;
        let mut extended = false;
        let mut i: usize = 0;
        while i < MAX_REGIONS && !extended
            invariant
                i <= MAX_REGIONS,
                before == old(self).regions@,
                regions_wf(before),
                frame < u64::MAX,
                !extended ==> self.regions@ == before,
                !extended ==> forall|j: int|
                    0 <= j < i && (#[trigger] before[j]) is Some ==> before[j]->0.end != frame
                        && before[j]->0.start != frame + 1,
                extended ==> touches(before, frame as int),
                extended ==> forall|x: int| #[trigger]
                    covered(self.regions@, x) == (covered(before, x) || x == frame),
            decreases MAX_REGIONS - i + if extended { 0int } else { 1 },
        {
            if let Some(r) = self.regions[i] {
                if r.end == frame {
                    let run = FreeRegion { start: r.start, end: frame + 1 };
                    self.regions[i] = Some(run);
                    extended = true;
                } else if r.start == frame + 1 {
                    let run = FreeRegion { start: frame, end: r.end };
                    self.regions[i] = Some(run);
                    extended = true;
                }
                proof {
                    if extended {
                        assert(before[i as int] is Some);
                        lemma_grow_covers(before, self.regions@, i as int, frame as int);
                    }
                }
            }
            if !extended {
                i = i + 1;
            }
        }
        if !extended {
            if let Some(k) = self.first_free_slot() {
                let run = FreeRegion { start: frame, end: frame + 1 };
                self.regions[k] = Some(run);
                proof {
                    lemma_push_covers(before, self.regions@, k as int, run);
                }
            }
        }
        let ghost mid = *self;
        self.coalesce();
        proof {
            assert(self.frames() == mid.frames());
            if returnable(before, frame as int) {
                assert forall|x: int| covered(mid.regions@, x) == (covered(before, x) || x
                    == frame) by {}
                assert(mid.frames() =~= old(self).frames().insert(frame as int));
            } else {
                assert(mid.regions@ == before);
                assert(mid.frames() =~= old(self).frames());
            }
        }
    }

    /// The number of free frames.
    pub fn free_count(&self) -> (r: u64)
        requires
            self.wf(),
        ensures
            self.frames().finite(),
            r == self.frames().len(),
    {
        let mut sum: u64 = 0;
        let mut i: usize = 0;
        proof {
            assert(frames_below(self.regions@, 0) =~= Set::<int>::empty());
        }
        while i < MAX_REGIONS
            invariant
                i <= MAX_REGIONS,
                self.wf(),
                frames_below(self.regions@, i as int).finite(),
                frames_below(self.regions@, i as int).len() == sum,
            decreases MAX_REGIONS - i,
        {
            proof {
                lemma_frames_below_step(self.regions@, i as int);
            }
            if let Some(r) = self.regions[i] {
                sum = sum + r.len();
            }
            i = i + 1;
        }
        assert(frames_below(self.regions@, MAX_REGIONS as int) =~= self.frames());
        sum
    }

    /// Sorts the runs, merges those that touch or overlap and packs them to the
    /// front. The free frames stay the same.
    pub fn coalesce(&mut self)
        ensures
            final(self).wf(),
            final(self).canonical(),
            final(self).frames() == old(self).frames(),
    {
        let (mut live, n) = collect_live(&self.regions);
        let ghost before = self.regions@;
        if n == 0 {
            self.clear();
            proof {
                assert(regions_sorted(self.regions@, 0));
                assert forall|f: int| !covered(before, f) by {
                    assert(!live_covers(live@, 0, f));
                }
                assert(self.frames() =~= old(self).frames());
            }
            return;
        }
        sort_live(&mut live, n);
        let (out, _) = merge_live(&live, n);
        self.regions = out;
        proof {
            assert(self.frames() =~= old(self).frames());
        }
    }
}

/// The frames in the first `n` runs.
spec fn frames_below(regions: Seq<Option<FreeRegion>>, n: int) -> Set<int> {
    Set::new(|f: int| exists|i: int| 0 <= i < n && slot_holds(#[trigger] regions[i], f))
}

/// One more run adds as many frames as it is long, and they all fit a machine
/// word.
proof fn lemma_frames_below_step(regions: Seq<Option<FreeRegion>>, i: int)
    requires
        0 <= i < regions.len(),
        regions_wf(regions),
        frames_below(regions, i).finite(),
    ensures
        frames_below(regions, i + 1).finite(),
        frames_below(regions, i + 1).len() == frames_below(regions, i).len() + if regions[i] is Some {
            regions[i]->0.end - regions[i]->0.start
        } else {
            0
        },
        frames_below(regions, i + 1).len() <= u64::MAX,
{
    let a = frames_below(regions, i);
    let b = frames_below(regions, i + 1);
    if regions[i] is Some {
        let r = regions[i]->0;
        let c = vstd::set_lib::set_int_range(r.start as int, r.end as int);
        vstd::set_lib::lemma_int_range(r.start as int, r.end as int);
        assert forall|f: int| b.contains(f) == (a.contains(f) || c.contains(f)) by {
            if b.contains(f) {
                let q = choose|q: int| 0 <= q < i + 1 && slot_holds(#[trigger] regions[q], f);
                assert(slot_holds(regions[q], f));
            }
            if a.contains(f) {
                let q = choose|q: int| 0 <= q < i && slot_holds(#[trigger] regions[q], f);
                assert(slot_holds(regions[q], f));
            }
            if c.contains(f) {
                assert(slot_holds(regions[i], f));
            }
        }
        assert(b =~= a + c);
        assert(a.disjoint(c)) by {
            assert forall|f: int| a.contains(f) implies !c.contains(f) by {
                let q = choose|q: int| 0 <= q < i && slot_holds(#[trigger] regions[q], f);
                assert(slots_apart(regions[q], regions[i]));
            }
        }
        vstd::set_lib::lemma_set_disjoint_lens(a, c);
    } else {
        assert forall|f: int| b.contains(f) == a.contains(f) by {
            if b.contains(f) {
                let q = choose|q: int| 0 <= q < i + 1 && slot_holds(#[trigger] regions[q], f);
                assert(slot_holds(regions[q], f));
            }
            if a.contains(f) {
                let q = choose|q: int| 0 <= q < i && slot_holds(#[trigger] regions[q], f);
                assert(slot_holds(regions[q], f));
            }
        }
        assert(b =~= a);
    }
    let top = vstd::set_lib::set_int_range(0, u64::MAX as int);
    vstd::set_lib::lemma_int_range(0, u64::MAX as int);
    assert forall|f: int| b.contains(f) implies top.contains(f) by {
        let q = choose|q: int| 0 <= q < i + 1 && slot_holds(#[trigger] regions[q], f);
    }
    vstd::set_lib::lemma_len_subset(b, top);
}

/// Growing a run by the frame next to it adds that frame.
proof fn lemma_grow_covers(
    before: Seq<Option<FreeRegion>>,
    after: Seq<Option<FreeRegion>>,
    at: int,
    frame: int,
)
    requires
        0 <= at < before.len(),
        before[at] is Some,
        before[at]->0.start < before[at]->0.end,
        after.len() == before.len(),
        forall|j: int| 0 <= j < before.len() && j != at ==> after[j] == #[trigger] before[j],
        after[at] is Some,
        forall|x: int| after[at]->0.holds(x) == (before[at]->0.holds(x) || x == frame),
    ensures
        forall|x: int| covered(after, x) == (covered(before, x) || x == frame),
{
    assert forall|x: int| covered(after, x) == (covered(before, x) || x == frame) by {
        if covered(after, x) {
            let q = choose|q: int| 0 <= q < after.len() && slot_holds(#[trigger] after[q], x);
            if q != at || x != frame {
                assert(slot_holds(before[q], x));
            }
        }
        if covered(before, x) {
            let q = choose|q: int| 0 <= q < before.len() && slot_holds(#[trigger] before[q], x);
            assert(slot_holds(after[q], x));
        }
        if x == frame {
            assert(slot_holds(after[at], x));
        }
    }
}

/// One stretch of the memory map, in bytes.
#[derive(Clone, Copy, Debug, PartialEq, Eq, Structural)]
pub struct MemmapEntry {
    pub base: u64,
    pub length: u64,
    pub type_: u64,
}

impl MemmapEntry {
    /// The frame lies wholly in the stretch.
    pub open spec fn contains_frame(self, frame: int) -> bool {
        self.base <= frame * FRAME_SIZE && (frame + 1) * FRAME_SIZE <= self.base + self.length
    }

    /// The stretch is free to use and at least one whole frame lies in it.
    pub open spec fn has_frames(self) -> bool {
        self.type_ == MEMMAP_USABLE && (self.base + 0xfff) / 0x1000 < (self.base + self.length)
            / 0x1000
    }

    /// The stretch can be converted to frames without overflow.
    pub open spec fn in_range(self) -> bool {
        self.type_ == MEMMAP_USABLE ==> self.base + 0xfff <= u64::MAX && self.base + self.length
            <= u64::MAX
    }
}

/// How many of the first `n` stretches have frames to offer.
pub open spec fn stretches_below(memmap: Seq<MemmapEntry>, n: int) -> nat
    decreases n,
{
    if n <= 0 {
        0
    } else {
        stretches_below(memmap, n - 1) + if memmap[n - 1].has_frames() {
            1nat
        } else {
            0
        }
    }
}

/// Stretch `i` has frames to offer and is among the first that the allocator has
/// room for.
pub open spec fn stretch_kept(memmap: Seq<MemmapEntry>, i: int) -> bool {
    memmap[i].has_frames() && stretches_below(memmap, i) < MAX_REGIONS
}

/// One of the first `n` stretches offers this frame.
pub open spec fn offered(memmap: Seq<MemmapEntry>, n: int, frame: int) -> bool {
    exists|i: int|
        0 <= i < n && #[trigger] stretch_kept(memmap, i) && memmap[i].contains_frame(frame)
}

/// The addresses of the frame fit a machine word.
pub open spec fn addressable(frame: int) -> bool {
    (frame + 1) * FRAME_SIZE <= u64::MAX
}

/// Physical memory as the kernel sees it: where the direct map starts and which
/// frames are free.
pub struct Memory {
    pub hhdm_offset: u64,
    pub frame_allocator: FrameAllocator,
}

impl Memory {
    /// The free frames.
    pub open spec fn frames(self) -> Set<int> {
        self.frame_allocator.frames()
    }

    /// No frame is listed twice, and every free frame has an address.
    pub open spec fn wf(self) -> bool {
        &&& self.frame_allocator.wf()
        &&& forall|f: int| #[trigger] self.frames().contains(f) ==> addressable(f)
    }

    /// No direct map yet, and no free frame.
    pub fn new() -> (r: Memory)
        ensures
            r.wf(),
            r.hhdm_offset == 0,
            r.frames() == Set::<int>::empty(),
    {
        Memory { hhdm_offset: 0, frame_allocator: FrameAllocator::empty() }
    }
}

/// Where the direct map starts.
pub fn hhdm_offset(mem: &Memory) -> (r: u64)
    ensures
        r == mem.hhdm_offset,
{
    mem.hhdm_offset
}

/// The address of a frame in the direct map.
pub fn phys_frame_to_virt(mem: &Memory, frame: u64) -> (r: u64)
    requires
        frame * FRAME_SIZE + mem.hhdm_offset <= u64::MAX,
    ensures
        r == frame * FRAME_SIZE + mem.hhdm_offset,
{
    (frame * 4096) + hhdm_offset(mem)
}

/// Takes the usable stretches of the memory map as the free frames and records
/// where the direct map starts. A frame counts only if it lies wholly in a
/// stretch. Stretches beyond those that the allocator has room for are dropped.
pub fn init(mem: &mut Memory, hhdm_offset: u64, memmap: &[MemmapEntry])
    requires
        forall|i: int| 0 <= i < memmap@.len() ==> (#[trigger] memmap@[i]).in_range(),
    ensures
        final(mem).wf(),
        final(mem).hhdm_offset == hhdm_offset,
        final(mem).frames() == Set::new(|f: int| offered(memmap@, memmap@.len() as int, f)),
        final(mem).frame_allocator.canonical(),
{
    mem.frame_allocator.clear();
    let mut i: usize = 0;
    let ghost mut used: int = 0;
    while i < memmap.len()
        invariant
            forall|k: int| 0 <= k < memmap@.len() ==> (#[trigger] memmap@[k]).in_range(),
            i <= memmap@.len(),
            0 <= used <= MAX_REGIONS,
            stretches_below(memmap@, i as int) < MAX_REGIONS ==> used == stretches_below(
                memmap@,
                i as int,
            ),
            stretches_below(memmap@, i as int) >= MAX_REGIONS ==> used == MAX_REGIONS,
            forall|k: int|
                0 <= k < used ==> (#[trigger] mem.frame_allocator.regions@[k]) is Some,
            forall|k: int|
                used <= k < MAX_REGIONS ==> (#[trigger] mem.frame_allocator.regions@[k]) is None,
            forall|f: int| #[trigger]
                mem.frame_allocator.frames().contains(f) == offered(memmap@, i as int, f),
        decreases memmap@.len() - i,
    {
        let entry = memmap[i];
        let ghost before = mem.frame_allocator;
        if entry.type_ == MEMMAP_USABLE {
            let first: u64 = (entry.base + 0xfff) / 0x1000;
            let last: u64 = (entry.base + entry.length) / 0x1000;
            if first < last {
                proof {
                    if used < MAX_REGIONS {
                        assert(before.regions@[used] is None);
                    }
                }
                mem.frame_allocator.add_region(first, last);
                proof {
                    if used < MAX_REGIONS {
                        used = used + 1;
                    }
                }
            }
        }
        i = i + 1;
        proof {
            assert forall|f: int| #[trigger]
                mem.frame_allocator.frames().contains(f) == offered(memmap@, i as int, f) by {
                lemma_offered_step(memmap@, i - 1, f);
                assert(before.frames().contains(f) == offered(memmap@, i - 1, f));
            }
        }
    }
    let ghost listed = mem.frame_allocator;
    mem.frame_allocator.coalesce();
    mem.hhdm_offset = hhdm_offset;
    proof {
        assert(mem.frames() == listed.frames());
        assert(mem.frames() =~= Set::new(|f: int| offered(memmap@, memmap@.len() as int, f)));
    }
}

/// The stretches up to `i` offer a frame if those below do or stretch `i` does.
proof fn lemma_offered_step(memmap: Seq<MemmapEntry>, i: int, f: int)
    requires
        0 <= i < memmap.len(),
    ensures
        offered(memmap, i + 1, f) == (offered(memmap, i, f) || (stretch_kept(memmap, i)
            && memmap[i].contains_frame(f))),
        memmap[i].contains_frame(f) == ((memmap[i].base + 0xfff) / 0x1000 <= f < (memmap[i].base
            + memmap[i].length) / 0x1000),
{
    if offered(memmap, i + 1, f) {
        let q = choose|q: int|
            0 <= q < i + 1 && #[trigger] stretch_kept(memmap, q) && memmap[q].contains_frame(f);
        assert(stretch_kept(memmap, q));
    }
    if offered(memmap, i, f) {
        let q = choose|q: int|
            0 <= q < i && #[trigger] stretch_kept(memmap, q) && memmap[q].contains_frame(f);
        assert(stretch_kept(memmap, q));
    }
}

/// Records only where the direct map starts.
pub fn init_hhdm(mem: &mut Memory, hhdm_offset: u64)
    ensures
        final(mem).hhdm_offset == hhdm_offset,
        final(mem).frame_allocator == old(mem).frame_allocator,
{
    mem.hhdm_offset = hhdm_offset;
}

/// Taking a frame: it is the lowest free one and can be given back, or none is free and
/// nothing changes.
pub open spec fn frame_taken(m: Memory, m2: Memory, r: Option<u64>) -> bool {
    &&& m2.hhdm_offset == m.hhdm_offset
    &&& match r {
        Some(frame) => {
            &&& takes_lowest(m.frames(), frame as int, m2.frames())
            &&& returnable(m2.frame_allocator.regions@, frame as int)
            &&& run_shortened(m.frame_allocator.regions@, m2.frame_allocator.regions@, frame)
        },
        None => m.frames() == Set::<int>::empty() && m2 == m,
    }
}

/// Giving a frame back: it is free again, unless no run touches it and all slots are taken.
/// The runs are put in order.
pub open spec fn frame_returned(m: Memory, m2: Memory, frame: u64) -> bool {
    &&& m2.hhdm_offset == m.hhdm_offset
    &&& m2.frame_allocator.canonical()
    &&& m2.frames() == if returnable(m.frame_allocator.regions@, frame as int) {
        m.frames().insert(frame as int)
    } else {
        m.frames()
    }
}

/// Takes the lowest free frame and gives its number.
pub fn allocate_frame(mem: &mut Memory) -> (r: Option<u64>)
    requires
        old(mem).wf(),
    ensures
        final(mem).wf(),
        frame_taken(*old(mem), *final(mem), r),
{
    let r = mem.frame_allocator.allocate();
    proof {
        assert forall|f: int| #[trigger] mem.frames().contains(f) implies addressable(f) by {
            assert(old(mem).frames().contains(f));
        }
    }
    r
}

/// Gives a frame back. It is lost if no run touches it and all slots are taken.
pub fn deallocate_frame(mem: &mut Memory, frame: u64)
    requires
        old(mem).wf(),
        addressable(frame as int),
    ensures
        final(mem).wf(),
        frame_returned(*old(mem), *final(mem), frame),
{
    mem.frame_allocator.free(frame);
    proof {
        assert forall|f: int| #[trigger] mem.frames().contains(f) implies addressable(f) by {
            assert(old(mem).frames().contains(f) || f == frame);
        }
    }
}

/// The number of free frames.
pub fn free_frame_count(mem: &Memory) -> (r: u64)
    requires
        mem.wf(),
    ensures
        r == mem.frames().len(),
{
    mem.frame_allocator.free_count()
}

/// Two allocations in a row give different frames, the lower one first.
pub proof fn law_allocations_are_distinct(
    start: Set<int>,
    first: int,
    between: Set<int>,
    second: int,
    end: Set<int>,
)
    requires
        takes_lowest(start, first, between),
        takes_lowest(between, second, end),
    ensures
        first < second,
        !end.contains(first),
        !end.contains(second),
{
    assert(start.contains(second));
}

/// Giving back the frame that was just taken undoes the taking: the free frames and
/// their number are as before, and the next frame taken is the same one again.
pub proof fn law_free_undoes_allocate(
    start: Memory,
    taken: Memory,
    frame: u64,
    back: Memory,
    end: Memory,
    again: Option<u64>,
)
    requires
        start.wf(),
        frame_taken(start, taken, Some(frame)),
        frame_returned(taken, back, frame),
        frame_taken(back, end, again),
    ensures
        addressable(frame as int),
        back.frames() == start.frames(),
        back.frames().len() == start.frames().len(),
        again == Some(frame),
        end.frames() == taken.frames(),
{
    assert(start.frames().contains(frame as int));
    assert(back.frames() =~= start.frames());
    if again is Some {
        assert(back.frames().contains(again->0 as int));
        assert(start.frames().contains(again->0 as int));
    }
}

/// A frame that was taken and not given back is not handed out again, however many
/// frames are taken after it.
pub proof fn law_taken_frame_stays_taken(
    states: Seq<Memory>,
    given: Seq<Option<u64>>,
    frame: u64,
    i: int,
)
    requires
        states.len() == given.len() + 1,
        forall|k: int|
            0 <= k < given.len() ==> frame_taken(states[k], states[k + 1], #[trigger] given[k]),
        !states[0].frames().contains(frame as int),
        0 <= i < given.len(),
    ensures
        given[i] != Some(frame),
        !states[i + 1].frames().contains(frame as int),
    decreases i,
{
    if i > 0 {
        law_taken_frame_stays_taken(states, given, frame, i - 1);
    }
    assert(frame_taken(states[i], states[i + 1], given[i]));
}

/// Allocation takes exactly one frame off the count.
pub proof fn law_allocate_lowers_the_count(start: Set<int>, frame: int, end: Set<int>)
    requires
        start.finite(),
        takes_lowest(start, frame, end),
    ensures
        end.len() + 1 == start.len(),
{
}

/// Only free memory is handed out, and in whole frames: every byte of a frame that is offered
/// lies in one and the same stretch that the memory map marks as usable.
pub proof fn law_offered_frames_lie_in_usable_memory(
    memmap: Seq<MemmapEntry>,
    n: int,
    frame: int,
    byte: int,
) -> (i: int)
    requires
        offered(memmap, n, frame),
        frame * 4096 <= byte < frame * 4096 + 4096,
    ensures
        0 <= i < n,
        memmap[i].type_ == 0,
        memmap[i].base <= byte < memmap[i].base + memmap[i].length,
{
    choose|i: int|
        0 <= i < n && #[trigger] stretch_kept(memmap, i) && memmap[i].contains_frame(frame)
}

/// No frame of usable memory is left out, as long as there are no more stretches than the
/// allocator has room for: a frame whose first and last byte lie in a usable stretch is
/// offered.
pub proof fn law_usable_frames_are_offered(memmap: Seq<MemmapEntry>, i: int, frame: int)
    requires
        memmap.len() <= 64,
        0 <= i < memmap.len(),
        memmap[i].type_ == 0,
        memmap[i].base <= frame * 4096,
        frame * 4096 + 4095 < memmap[i].base + memmap[i].length,
    ensures
        offered(memmap, memmap.len() as int, frame),
{
    lemma_no_more_than_there_are(memmap, i);
    assert(stretch_kept(memmap, i));
}

/// No more stretches have frames to offer than there are.
proof fn lemma_no_more_than_there_are(memmap: Seq<MemmapEntry>, n: int)
    requires
        0 <= n,
    ensures
        stretches_below(memmap, n) <= n,
    decreases n,
{
    if n > 0 {
        lemma_no_more_than_there_are(memmap, n - 1);
    }
}

/// The frame that is taken was free, is the lowest of those that were, and is the only one
/// that is free no more.
pub proof fn law_lowest_frame_is_taken(before: Set<int>, frame: int, after: Set<int>, f: int)
    requires
        takes_lowest(before, frame, after),
    ensures
        before.contains(frame),
        before.contains(f) ==> frame <= f,
        after.contains(f) <==> before.contains(f) && f != frame,
{
}

/// The free frames are those of the runs, from the start of a run up to but not with its end.
pub proof fn law_runs_hold_their_frames(m: Memory, f: int)
    ensures
        m.frames().contains(f) <==> exists|i: int|
            0 <= i < 64 && (#[trigger] m.frame_allocator.regions@[i]) is Some
                && m.frame_allocator.regions@[i]->0.start <= f
                < m.frame_allocator.regions@[i]->0.end,
{
    if m.frames().contains(f) {
        let i = choose|i: int|
            0 <= i < m.frame_allocator.regions@.len() && slot_holds(
                #[trigger] m.frame_allocator.regions@[i],
                f,
            );
        assert(m.frame_allocator.regions@[i] is Some);
    }
    if exists|i: int|
        0 <= i < 64 && (#[trigger] m.frame_allocator.regions@[i]) is Some
            && m.frame_allocator.regions@[i]->0.start <= f < m.frame_allocator.regions@[i]->0.end {
        let i = choose|i: int|
            0 <= i < 64 && (#[trigger] m.frame_allocator.regions@[i]) is Some
                && m.frame_allocator.regions@[i]->0.start <= f
                < m.frame_allocator.regions@[i]->0.end;
        assert(slot_holds(m.frame_allocator.regions@[i], f));
    }
}

/// Giving a frame back makes it free and no other, unless no run touches it and there is no
/// slot for a run of its own; taking fails only when no frame is free.
pub proof fn law_returned_frame_is_free(
    m: Memory,
    m2: Memory,
    frame: u64,
    f: int,
    i: int,
    m3: Memory,
)
    requires
        frame_returned(m, m2, frame),
        0 <= i < 64,
    ensures
        m2.hhdm_offset == m.hhdm_offset,
        f != frame ==> (m2.frames().contains(f) <==> m.frames().contains(f)),
        m.frame_allocator.regions@[i] is None ==> m2.frames().contains(frame as int),
        m.frame_allocator.regions@[i] is Some && m.frame_allocator.regions@[i]->0.end == frame
            ==> m2.frames().contains(frame as int),
        m.frame_allocator.regions@[i] is Some && m.frame_allocator.regions@[i]->0.start == frame + 1
            ==> m2.frames().contains(frame as int),
        m.frames().contains(f) ==> !frame_taken(m, m3, None),
{
    let regions = m.frame_allocator.regions@;
    if regions[i] is None {
        assert(has_free_slot(regions));
    }
    if regions[i] is Some && (regions[i]->0.end == frame || regions[i]->0.start == frame + 1) {
        assert(touches(regions, frame as int));
    }
}

/// A frame has 4096 bytes, and a frame that is addressable has all of them below the end of
/// the address range.
pub proof fn law_frames_have_addresses(frame: int, byte: int)
    requires
        0 <= frame,
        addressable(frame),
        frame * 4096 <= byte < frame * 4096 + 4096,
    ensures
        byte < 0xffff_ffff_ffff_ffff,
        FRAME_SIZE == 4096,
{
}

/// Only stretches with something to offer take room in the allocator: usable ones in which at
/// least one whole frame lies.
pub proof fn law_stretches_with_frames_take_room(memmap: Seq<MemmapEntry>, n: int, frame: int)
    requires
        0 <= n,
    ensures
        ({
            let e = memmap[n];
            let first = (e.base + 4095) / 4096;
            &&& e.type_ == 0 && e.base <= frame * 4096 && frame * 4096 + 4096 <= e.base + e.length
                ==> e.has_frames()
            &&& e.has_frames() ==> e.type_ == 0 && e.base <= first * 4096 && first * 4096 + 4096
                <= e.base + e.length
            &&& e.has_frames() ==> stretches_below(memmap, n + 1) == stretches_below(memmap, n) + 1
            &&& !e.has_frames() ==> stretches_below(memmap, n + 1) == stretches_below(memmap, n)
        }),
        stretches_below(memmap, 0) == 0,
{
}

/// No frame is listed twice: a frame is in at most one run, and no run is empty. Every free frame
/// has an address.
pub proof fn law_no_frame_is_listed_twice(m: Memory, i: int, j: int, f: int)
    requires
        m.wf(),
        0 <= i < 64,
        0 <= j < 64,
    ensures
        ({
            let a = m.frame_allocator.regions@[i];
            let b = m.frame_allocator.regions@[j];
            &&& a is Some ==> a->0.start < a->0.end
            &&& a is Some && b is Some && a->0.start <= f < a->0.end && b->0.start <= f < b->0.end
                ==> i == j
            &&& a is Some && a->0.start <= f < a->0.end ==> f * 4096 + 4096 <= u64::MAX
        }),
{
    let regions = m.frame_allocator.regions@;
    if i < j {
        assert(slots_apart(regions[i], regions[j]));
    }
    if j < i {
        assert(slots_apart(regions[j], regions[i]));
    }
    if slot_holds(regions[i], f) {
        assert(m.frames().contains(f));
    }
}

/// Runs that are in order stand at the front, each behind the one before it with at least one
/// frame in between.
pub proof fn law_runs_in_order_have_gaps(regions: Seq<Option<FreeRegion>>, n: int, i: int, j: int)
    requires
        regions_sorted(regions, n),
        0 <= i < j < regions.len(),
    ensures
        regions[j] is Some ==> regions[i] is Some,
        regions[i] is Some && regions[j] is Some ==> regions[i]->0.start < regions[i]->0.end
            < regions[j]->0.start < regions[j]->0.end,
{
}

/// Taking a frame gives the lowest one that is free, if there is any, and leaves the direct map
/// and all other frames as they are.
pub proof fn law_taking_a_frame(m: Memory, m2: Memory, r: Option<u64>, f: int)
    requires
        frame_taken(m, m2, r),
    ensures
        m2.hhdm_offset == m.hhdm_offset,
        m.frames().contains(f) ==> r is Some && r->0 <= f,
        r is Some ==> m.frames().contains(r->0 as int),
        r is Some ==> (m2.frames().contains(f) <==> m.frames().contains(f) && f != r->0),
        r is None ==> m2 == m,
{
}

} // verus!
