//! The object store on a disk that is kept in memory.
use cairn::memory::{free_frame_count, init, MemmapEntry, Memory, MEMMAP_USABLE};
use cairn::objstore::{
    extent_content_hash, fnv1a, fnv1a_step, format_ops, load_extent, load_failed, mount,
    mount_formatted, put, put_commit, rd_u32, rd_u64, read_superblock, recover, recover_finish,
    superblock_sector, wr_u32, wr_u64, DiskOp, ExtentReader, MountAction, PutPlan, PutRun, SlotRead,
    Store, Superblock, FNV1A_BASIS, LBA_LOG_START, LBA_SB_A, LBA_SB_B, O_SB_HASH, O_SEQ, PAGE_SIZE,
    REC_MAGIC, SB_MAGIC,
};

type Disk = Vec<[u8; 512]>;

fn blank() -> Disk {
    vec![[0u8; 512]; 64]
}

fn apply(disk: &mut Disk, op: DiskOp) {
    if let DiskOp::Write { lba, sector } = op {
        disk[lba as usize] = sector;
    }
}

fn mounted(disk: &mut Disk) -> Store {
    let mut store = Store::new();
    let a = read_superblock(Some(disk[0]));
    let b = read_superblock(Some(disk[1]));
    if let MountAction::Format(_) = mount(&mut store, a, b) {
        let (write, flush) = format_ops();
        assert!(matches!(write, DiskOp::Write { lba: LBA_SB_A, .. }));
        assert!(matches!(flush, DiskOp::Flush));
        apply(disk, write);
        mount_formatted(&mut store, true, true);
    }
    store
}

/// Runs the first `n` operations of a plan.
fn run(disk: &mut Disk, plan: &PutPlan, bytes: &[u8], n: u64) {
    for i in 0..n {
        apply(disk, plan.op(bytes, i));
    }
}

fn store_object(disk: &mut Disk, store: &mut Store, bytes: &[u8]) -> (u64, u32, u64) {
    let plan = put(store, bytes).unwrap();
    let mut run = PutRun::start(plan);
    while let Some(op) = run.next(bytes) {
        apply(disk, op);
        run.advance(true);
    }
    put_commit(store, &run).unwrap()
}

fn read_hash(disk: &Disk, mut reader: ExtentReader) -> u64 {
    while let Some(lba) = reader.next_lba() {
        reader.absorb(&disk[lba as usize]);
    }
    reader.finish()
}

fn recovered(disk: &Disk, store: &Store) -> Option<(u64, u32, u64)> {
    let reader = recover(store)?;
    recover_finish(store, Some(read_hash(disk, reader)))
}

fn object(n: usize) -> Vec<u8> {
    (0..n).map(|i| (i * 7 % 251) as u8).collect()
}

#[test]
fn hash_values() {
    assert_eq!(fnv1a(b""), 0xcbf2_9ce4_8422_2325);
    assert_eq!(fnv1a(b"a"), 0xaf63_dc4c_8601_ec8c);
    assert_eq!(fnv1a(b"foobar"), 0x8594_4171_f739_67e8);
    // In parts it is the same.
    let h = fnv1a_step(fnv1a_step(FNV1A_BASIS, b"foo"), b"bar");
    assert_eq!(h, fnv1a(b"foobar"));
}

#[test]
fn numbers_in_sectors() {
    let mut s = [0xEEu8; 512];
    wr_u64(&mut s, 504, 0x0102_0304_0506_0708);
    assert_eq!(s[504..], [8, 7, 6, 5, 4, 3, 2, 1]);
    assert_eq!(s[503], 0xEE);
    assert_eq!(rd_u64(&s, 504), 0x0102_0304_0506_0708);
    wr_u32(&mut s, 3, 0xDEAD_BEEF);
    assert_eq!((s[2], s[3], s[6], s[7]), (0xEE, 0xEF, 0xDE, 0xEE));
    assert_eq!(rd_u32(&s, 3), 0xDEAD_BEEF);
}

#[test]
fn superblock_layout() {
    let sb = Superblock { seq: 5, log_head_lba: 9, root_lba: 4, root_len: 700, root_hash: 0x1122 };
    let s = superblock_sector(&sb);
    assert_eq!(&s[0..8], &[0x67, 0x4C, 0x6E, 0x72, 0x69, 0x61, 0x43, 0]);
    assert_eq!(rd_u64(&s, 0), SB_MAGIC);
    assert_eq!(&s[8..12], &[1, 0, 0, 0]);
    assert_eq!(rd_u64(&s, O_SEQ), 5);
    assert_eq!(rd_u64(&s, O_SB_HASH), fnv1a(&s[..56]));
    assert!(s[64..].iter().all(|b| *b == 0));
    assert_eq!(read_superblock(Some(s)), SlotRead::Valid(sb));
    // Any byte under the hash counts.
    for i in 0..64 {
        let mut torn = s;
        torn[i] ^= 1;
        assert_eq!(read_superblock(Some(torn)), SlotRead::Invalid);
    }
    assert_eq!(read_superblock(Some([0; 512])), SlotRead::Invalid);
    assert_eq!(read_superblock(None), SlotRead::Io);
}

#[test]
fn mounting_takes_the_newest_and_never_formats_over_the_unknown() {
    let sb = |seq: u64| Superblock { seq, log_head_lba: 2, root_lba: 0, root_len: 0, root_hash: 0 };
    let v = |seq: u64| SlotRead::Valid(sb(seq));
    for (a, b, slot, seq) in [
        (v(3), v(4), LBA_SB_B, 4),
        (v(4), v(3), LBA_SB_A, 4),
        (v(4), v(4), LBA_SB_A, 4),
        (v(2), SlotRead::Io, LBA_SB_A, 2),
        (SlotRead::Invalid, v(2), LBA_SB_B, 2),
        (SlotRead::Io, v(2), LBA_SB_B, 2),
    ] {
        let mut store = Store::new();
        assert_eq!(mount(&mut store, a, b), MountAction::Mounted);
        assert!(store.mounted_ok);
        assert_eq!((store.mounted_slot, store.mounted.seq), (slot, seq));
    }
    for (a, b) in [
        (SlotRead::Io, SlotRead::Io),
        (SlotRead::Io, SlotRead::Invalid),
        (SlotRead::Invalid, SlotRead::Io),
    ] {
        let mut store = Store::new();
        assert_eq!(mount(&mut store, a, b), MountAction::Refused);
        assert_eq!(store, Store::new());
        assert_eq!(put(&store, b"x"), None);
        assert_eq!(recover(&store), None);
    }
    let mut store = Store::new();
    let r = mount(&mut store, SlotRead::Invalid, SlotRead::Invalid);
    assert_eq!(r, MountAction::Format(Superblock { seq: 1, log_head_lba: LBA_LOG_START, ..sb(1) }));
    mount_formatted(&mut store, false, false);
    mount_formatted(&mut store, true, false);
    assert_eq!(store, Store::new());
    mount_formatted(&mut store, true, true);
    assert_eq!((store.mounted, store.mounted_ok, store.mounted_slot), (sb(1), true, LBA_SB_A));
}

#[test]
fn objects_survive_a_restart() {
    let mut disk = blank();
    let mut store = mounted(&mut disk);
    assert_eq!((store.mounted.seq, store.mounted.log_head_lba), (1, 2));
    assert_eq!(recovered(&disk, &store), None);
    let first = object(700);
    let one = store_object(&mut disk, &mut store, &first);
    assert_eq!(one, (2, 700, fnv1a(&first)));
    // Two data sectors and a header; the other slot is in use now.
    assert_eq!((store.mounted.log_head_lba, store.mounted_slot, store.mounted.seq), (5, LBA_SB_B, 2));
    assert_eq!(rd_u64(&disk[4], 0), REC_MAGIC);
    assert_eq!((rd_u32(&disk[4], 8), rd_u64(&disk[4], 16), rd_u64(&disk[4], 24)), (700, one.2, 0));
    assert_eq!(rd_u64(&disk[4], 32), fnv1a(&disk[4][..32]));
    assert!(disk[3][188..].iter().all(|b| *b == 0));
    let again = mounted(&mut disk);
    assert_eq!(again, store);
    assert_eq!(recovered(&disk, &again), Some(one));
    // The same bytes have the same name at another place, and the first are still there.
    let mut store = again;
    let two = store_object(&mut disk, &mut store, &first);
    assert_eq!((two.0, two.2), (5, one.2));
    assert_eq!(rd_u64(&disk[7], 24), 2);
    assert_eq!(store.mounted_slot, LBA_SB_A);
    assert_eq!(read_hash(&disk, extent_content_hash(one.0, one.1)), one.2);
    // An object without bytes takes only a header, and is not recovered.
    let empty = store_object(&mut disk, &mut store, b"");
    assert_eq!(empty, (8, 0, FNV1A_BASIS));
    assert_eq!(store.mounted.log_head_lba, 9);
    assert_eq!(recover(&store), None);
}

#[test]
fn a_cut_at_any_point_gives_the_old_or_the_new() {
    let old = object(1000);
    let new = object(1600);
    let mut base = blank();
    let mut store = mounted(&mut base);
    let was = store_object(&mut base, &mut store, &old);
    let plan = put(&store, &new).unwrap();
    assert_eq!(plan.n_ops(), 8);
    for n in 0..=plan.n_ops() {
        let mut disk = base.clone();
        run(&mut disk, &plan, &new, n);
        let after = mounted(&mut disk);
        let want = if n < 7 { was } else { (plan.data_lba, 1600, fnv1a(&new)) };
        assert_eq!(recovered(&disk, &after), Some(want), "cut after {}", n);
        assert_eq!(read_hash(&disk, extent_content_hash(was.0, was.1)), was.2);
    }
    // A torn superblock falls back.
    let mut disk = base.clone();
    run(&mut disk, &plan, &new, 7);
    disk[plan.new_slot as usize][20] ^= 0xFF;
    let after = mounted(&mut disk);
    assert_eq!(recovered(&disk, &after), Some(was));
}

#[test]
fn a_crash_loses_nothing_that_was_committed() {
    let old = object(1000);
    let new = object(1500);
    let mut base = blank();
    let mut store = mounted(&mut base);
    let was = store_object(&mut base, &mut store, &old);
    let plan = put(&store, &new).unwrap();
    let now = (plan.data_lba, 1500, fnv1a(&new));
    for n in 0..=plan.n_ops() {
        // Writes up to the last flush are on the disk, of the others any may be.
        let ops: Vec<DiskOp> = (0..n).map(|i| plan.op(&new, i)).collect();
        let safe = ops.iter().rposition(|op| matches!(op, DiskOp::Flush)).map_or(0, |i| i + 1);
        for choice in 0..1u32 << (2 * (ops.len() - safe)) {
            let mut disk = base.clone();
            for (i, op) in ops.iter().enumerate() {
                if let DiskOp::Write { lba, sector } = op {
                    let fate = if i < safe { 1 } else { choice >> (2 * (i - safe)) & 3 };
                    if fate == 1 {
                        disk[*lba as usize] = *sector;
                    } else if fate == 2 {
                        disk[*lba as usize][..100].copy_from_slice(&sector[..100]);
                        disk[*lba as usize][20] ^= 0xFF;
                    }
                }
            }
            let after = mounted(&mut disk);
            let got = recovered(&disk, &after);
            assert!(got == Some(was) || (n > 5 && got == Some(now)), "{} {:#x}", n, choice);
            assert!(n < plan.n_ops() || got == Some(now));
            assert_eq!(read_hash(&disk, extent_content_hash(was.0, was.1)), was.2);
        }
    }
}

#[test]
fn the_first_failure_ends_a_run() {
    let bytes = object(1000);
    let mut disk = blank();
    let mut store = mounted(&mut disk);
    store_object(&mut disk, &mut store, &bytes);
    let plan = put(&store, &bytes).unwrap();
    for bad in 0..plan.n_ops() {
        let mut run = PutRun::start(plan);
        let mut slots = Vec::new();
        let mut n = 0;
        while let Some(op) = run.next(&bytes) {
            if let DiskOp::Write { lba, .. } = op {
                if lba < LBA_LOG_START {
                    slots.push((n, lba));
                }
            }
            run.advance(n != bad);
            n += 1;
        }
        assert_eq!(n, bad + 1);
        // The superblock comes out behind two data sectors, the header and a flush.
        let want = if bad >= 4 { vec![(4, plan.new_slot)] } else { vec![] };
        assert_eq!(slots, want);
        let mut same = store;
        assert_eq!(put_commit(&mut same, &run), None);
        assert_eq!(same, store);
    }
    // A run that was not finished is no success either.
    let mut same = store;
    assert_eq!(put_commit(&mut same, &PutRun::start(plan)), None);
    assert_eq!(same, store);
}

#[test]
fn corrupt_objects_are_not_recovered() {
    let mut disk = blank();
    let mut store = mounted(&mut disk);
    let (lba, _, _) = store_object(&mut disk, &mut store, &object(600));
    disk[lba as usize + 1][87] ^= 4;
    assert_eq!(recovered(&disk, &store), None);
    assert_eq!(recover_finish(&store, None), None);
    disk[lba as usize + 1][87] ^= 4;
    // What lies behind the last byte does not matter.
    disk[lba as usize + 1][88] ^= 4;
    assert!(recovered(&disk, &store).is_some());
}

#[test]
fn extent_is_loaded_to_a_frame() {
    let mut disk = blank();
    let mut store = mounted(&mut disk);
    let bytes = object(1100);
    let (lba, len, _) = store_object(&mut disk, &mut store, &bytes);
    disk[lba as usize + 2][100] = 0xFF;
    let mut mem = Memory::new();
    let map = [MemmapEntry { base: 0x5000, length: 0x1000, type_: MEMMAP_USABLE }];
    init(&mut mem, 0, &map);
    let mut page = [0xAAu8; PAGE_SIZE];
    let mut load = load_extent(&mut mem, lba, len).unwrap();
    load.clear(&mut page);
    while let Some(l) = load.next_lba() {
        load.place(&mut page, &disk[l as usize]);
    }
    assert_eq!(load.finish(), 0x5000);
    assert_eq!(&page[..1100], &bytes[..]);
    assert!(page[1100..].iter().all(|b| *b == 0));
    // No frame is left, and a length out of range takes none.
    assert_eq!(load_extent(&mut mem, lba, len), None);
    load_failed(&mut mem, &load);
    assert_eq!(free_frame_count(&mem), 1);
    assert_eq!(load_extent(&mut mem, lba, 0), None);
    assert_eq!(load_extent(&mut mem, lba, 4097), None);
    assert!(load_extent(&mut mem, lba, 4096).is_some());
}
