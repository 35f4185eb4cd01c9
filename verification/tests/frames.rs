//! The two frame allocators.
use cairn::frame_bitmap::BitmapFrameAllocator;
use cairn::memory::{
    allocate_frame, deallocate_frame, free_frame_count, hhdm_offset, init, init_hhdm,
    phys_frame_to_virt, FrameAllocator, FreeRegion, Memory, MemmapEntry, MAX_REGIONS, MEMMAP_USABLE,
};

#[test]
fn basic_alloc_free_roundtrip() {
    let mut a: BitmapFrameAllocator<32> = BitmapFrameAllocator::new();
    assert_eq!(a.free_count(), 0);
    assert!(!a.is_free(0));

    a.mark_free(5);
    a.mark_free(0);
    assert!(a.is_free(0) && a.is_free(5));
    assert_eq!(a.free_count(), 2);

    // lowest-first
    let f0 = a.allocate().unwrap();
    assert_eq!(f0, 0);
    assert!(!a.is_free(0));
    assert_eq!(a.free_count(), 1);

    let f1 = a.allocate().unwrap();
    assert_eq!(f1, 5);
    assert!(a.allocate().is_none());

    a.free(0);
    assert!(a.is_free(0));
    assert_eq!(a.free_count(), 1);

    let f2 = a.allocate().unwrap();
    assert_eq!(f2, 0);
}

#[test]
fn out_of_bounds_marks_ignored() {
    let mut a: BitmapFrameAllocator<8> = BitmapFrameAllocator::new();
    a.mark_free(100);
    a.mark_free(3);
    a.mark_used(200);
    assert_eq!(a.free_count(), 1);
    assert!(!a.is_free(100));
    assert!(!a.is_free(200));

    let f = a.allocate().unwrap();
    assert_eq!(f, 3);
    assert!(a.allocate().is_none());
}

#[test]
fn idempotent_mark_and_no_double_alloc() {
    let mut a: BitmapFrameAllocator<16> = BitmapFrameAllocator::new();
    a.mark_free(2);
    a.mark_free(2);
    assert_eq!(a.free_count(), 1);

    let f = a.allocate().unwrap();
    assert_eq!(f, 2);
    // second alloc must not succeed (would be double-alloc of 2)
    assert!(a.allocate().is_none());
}

#[test]
fn alloc_never_exceeds_bounds() {
    let mut a: BitmapFrameAllocator<4> = BitmapFrameAllocator::new();
    a.mark_free(0);
    a.mark_free(1);
    a.mark_free(2);
    a.mark_free(3);
    for _ in 0..4 {
        let f = a.allocate().unwrap();
        assert!(f < 4, "frame {} out of 0..4", f);
    }
    assert!(a.allocate().is_none());
}

#[test]
fn free_count_tracks_exact() {
    let mut a: BitmapFrameAllocator<64> = BitmapFrameAllocator::new();
    for i in (0..64).step_by(3) {
        a.mark_free(i);
    }
    // 22 frames (0,3,...,63)
    assert_eq!(a.free_count(), 22);
    let _ = a.allocate();
    let _ = a.allocate();
    assert_eq!(a.free_count(), 20);
}

#[test]
fn bitmap_spans_words() {
    let mut a: BitmapFrameAllocator<200> = BitmapFrameAllocator::new();
    for i in 0..200 {
        a.mark_free(i);
    }
    a.mark_free(200);
    assert_eq!(a.free_count(), 200);
    a.mark_used(0);
    a.mark_used(64);
    assert_eq!(a.free_count(), 198);
    let mut last = 0;
    while let Some(f) = a.allocate() {
        assert!(f > last && f < 200 && f != 64);
        last = f;
    }
    assert_eq!(last, 199);
    a.free(64);
    assert_eq!(a.allocate(), Some(64));
}

fn region(start: u64, end: u64) -> Option<FreeRegion> {
    Some(FreeRegion { start, end })
}

#[test]
fn runs_are_sorted_and_merged() {
    let mut fa = FrameAllocator::empty();
    fa.add_region(20, 30);
    fa.add_region(5, 10);
    fa.add_region(10, 12);
    fa.add_region(25, 40);
    fa.add_region(50, 50);
    fa.add_region(60, 55);
    fa.coalesce();
    assert_eq!(fa.regions[0], region(5, 12));
    assert_eq!(fa.regions[1], region(20, 40));
    assert_eq!(fa.regions[2], None);
    assert_eq!(fa.free_count(), 27);
    assert_eq!(FreeRegion { start: 9, end: 4 }.len(), 0);
    fa.clear();
    assert_eq!(fa.free_count(), 0);
    fa.coalesce();
    assert_eq!(fa.allocate(), None);
}

#[test]
fn frames_come_lowest_first_and_go_back() {
    let mut fa = FrameAllocator::empty();
    fa.add_region(100, 102);
    fa.add_region(7, 9);
    fa.coalesce();
    assert_eq!(fa.allocate(), Some(7));
    assert_eq!(fa.regions[..3], [region(8, 9), region(100, 102), None]);
    assert_eq!(fa.allocate(), Some(8));
    assert_eq!(fa.regions[..3], [None, region(100, 102), None]);
    assert_eq!(fa.allocate(), Some(100));
    fa.free(8);
    assert_eq!(fa.regions[0], region(8, 9));
    fa.free(7);
    assert_eq!(fa.regions[0], region(7, 9));
    fa.free(9);
    assert_eq!(fa.regions[0], region(7, 10));
    // Freeing a frame that is free already changes nothing.
    fa.free(8);
    assert_eq!(fa.free_count(), 4);
    assert_eq!(fa.allocate(), Some(7));
}

#[test]
fn a_frame_without_a_slot_is_lost() {
    let mut fa = FrameAllocator::empty();
    for i in 0..MAX_REGIONS as u64 {
        fa.add_region(i * 10, i * 10 + 2);
    }
    // One more run is dropped.
    fa.add_region(5000, 6000);
    assert_eq!(fa.free_count(), 128);
    fa.free(5);
    assert_eq!(fa.free_count(), 128);
    // Next to a run there is always room.
    fa.free(12);
    assert_eq!(fa.free_count(), 129);
}

#[test]
fn memory_map_gives_whole_frames() {
    let mut mem = Memory::new();
    let map = [
        MemmapEntry { base: 0x1001, length: 0x2fff, type_: MEMMAP_USABLE },
        MemmapEntry { base: 0x10_0000, length: 0x3000, type_: 1 },
        MemmapEntry { base: 0x20_0000, length: 0x2fff, type_: MEMMAP_USABLE },
        MemmapEntry { base: 0x30_0800, length: 0x0fff, type_: MEMMAP_USABLE },
    ];
    init(&mut mem, 0xffff_8000_0000_0000, &map);
    assert_eq!(hhdm_offset(&mem), 0xffff_8000_0000_0000);
    assert_eq!(free_frame_count(&mem), 4);
    assert_eq!(allocate_frame(&mut mem), Some(2));
    assert_eq!(allocate_frame(&mut mem), Some(3));
    assert_eq!(allocate_frame(&mut mem), Some(0x200));
    assert_eq!(phys_frame_to_virt(&mem, 2), 0xffff_8000_0000_2000);
    deallocate_frame(&mut mem, 3);
    assert_eq!(free_frame_count(&mem), 2);
    init_hhdm(&mut mem, 7);
    assert_eq!(hhdm_offset(&mem), 7);
    assert_eq!(allocate_frame(&mut mem), Some(3));
}

#[test]
fn memory_map_beyond_the_slots_is_dropped() {
    let mut mem = Memory::new();
    let mut map = Vec::new();
    for i in 0..70u64 {
        map.push(MemmapEntry { base: i * 0x10_0000, length: 0x1000, type_: MEMMAP_USABLE });
        map.push(MemmapEntry { base: i * 0x10_0000, length: 0x10, type_: MEMMAP_USABLE });
    }
    init(&mut mem, 0, &map);
    assert_eq!(free_frame_count(&mem), MAX_REGIONS as u64);
}

#[test]
fn a_frame_just_taken_can_go_back() {
    // All slots are taken, by runs of one frame and by longer ones.
    for pages in [1, 3] {
        let mut mem = Memory::new();
        let map: Vec<MemmapEntry> = (1..=MAX_REGIONS as u64)
            .map(|i| MemmapEntry { base: i * 0x10_0000, length: pages * 0x1000, type_: MEMMAP_USABLE })
            .collect();
        init(&mut mem, 0, &map);
        let n = free_frame_count(&mem);
        let f = allocate_frame(&mut mem).unwrap();
        assert_eq!((f, free_frame_count(&mem)), (0x100, n - 1));
        deallocate_frame(&mut mem, f);
        assert_eq!(free_frame_count(&mem), n);
        assert_eq!(allocate_frame(&mut mem), Some(f));
        // What was not given back does not come again.
        while let Some(other) = allocate_frame(&mut mem) {
            assert_ne!(other, f);
        }
    }
}
