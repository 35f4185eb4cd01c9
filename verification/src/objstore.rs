//! The object store: an append log of extents under a double-buffered superblock.
//!
//! The first two sectors of the disk hold superblocks, the log follows. To store
//! an object, its data sectors are written at the head of the log, then a record
//! header, and after a flush the superblock slot that is not in use is written
//! with the next sequence number. That last write is the commit: until it is on
//! the disk the old superblock stays in force.
//!
//! Reading and writing sectors is left to the caller. The functions here say which
//! sectors to read or write next and what follows from the outcome.
use crate::memory::{allocate_frame, deallocate_frame, Memory};
use vstd::prelude::*;

verus! {

/// Bytes in a sector.
pub const SECTOR_SIZE: usize = 512;

/// Marks a superblock.
pub const SB_MAGIC: u64 = 0x43_6169_726E_4C67;

/// The version that is written to a superblock.
pub const SB_VERSION: u32 = 1;

/// The sector of the first superblock slot.
pub const LBA_SB_A: u64 = 0;

/// The sector of the second superblock slot.
pub const LBA_SB_B: u64 = 1;

/// The first sector of the log.
pub const LBA_LOG_START: u64 = 2;

/// Where the fields of a superblock stand in its sector.
pub const O_MAGIC: usize = 0;

pub const O_VERSION: usize = 8;

pub const O_SEQ: usize = 16;

pub const O_LOG_HEAD: usize = 24;

pub const O_ROOT_LBA: usize = 32;

pub const O_ROOT_LEN: usize = 40;

pub const O_ROOT_HASH: usize = 48;

pub const O_SB_HASH: usize = 56;

/// Marks a record header.
pub const REC_MAGIC: u64 = 0x43_6169_726E_5265;

/// Where the fields of a record header stand in its sector.
pub const RH_MAGIC: usize = 0;

pub const RH_LEN: usize = 8;

pub const RH_HASH: usize = 16;

pub const RH_PREV: usize = 24;

pub const RH_HDR_HASH: usize = 32;

/// The hash of no bytes at all.
pub const FNV1A_BASIS: u64 = 0xcbf2_9ce4_8422_2325;

/// What the hash is multiplied by after each byte.
pub const FNV1A_PRIME: u64 = 0x0000_0100_0000_01b3;

/// What the store knows of itself: how often it was written, where the log ends
/// and where the newest object is.
#[derive(Clone, Copy, Debug, PartialEq, Eq, Structural)]
pub struct Superblock {
    pub seq: u64,
    pub log_head_lba: u64,
    pub root_lba: u64,
    pub root_len: u32,
    pub root_hash: u64,
}

/// The hash after one more byte.
pub open spec fn fnv_byte(h: u64, b: u8) -> u64 {
    (((h ^ (b as u64)) * FNV1A_PRIME) % 0x1_0000_0000_0000_0000) as u64
}

/// The hash after more bytes, taken from front to back.
pub open spec fn fnv_fold(h: u64, data: Seq<u8>) -> u64
    decreases data.len(),
{
    if data.len() == 0 {
        h
    } else {
        fnv_byte(fnv_fold(h, data.drop_last()), data.last())
    }
}

/// The content hash of the bytes.
pub open spec fn fnv(data: Seq<u8>) -> u64 {
    fnv_fold(FNV1A_BASIS, data)
}

/// Takes the bytes of `data` into the running hash `h`.
pub fn fnv1a_step(h: u64, data: &[u8]) -> (r: u64)
    ensures
        r == fnv_fold(h, data@),
{
    let mut acc: u64 = h;
    let mut i: usize = 0;
    assert(data@.take(0) =~= Seq::<u8>::empty());
    while i < data.len()
        invariant
            i <= data@.len(),
            acc == fnv_fold(h, data@.take(i as int)),
        decreases data@.len() - i,
    {
        assert(data@.take(i + 1).drop_last() =~= data@.take(i as int));
        acc = acc ^ (data[i] as u64);
        acc = acc.wrapping_mul(FNV1A_PRIME);
        i = i + 1;
    }
    assert(data@.take(data@.len() as int) =~= data@);
    acc
}

/// The FNV-1a content hash of the bytes.
pub fn fnv1a(data: &[u8]) -> (r: u64)
    ensures
        r == fnv(data@),
{
    fnv1a_step(FNV1A_BASIS, data)
}

/// Hashing in parts is the same as hashing at once.
pub proof fn law_hash_streams(h: u64, a: Seq<u8>, b: Seq<u8>)
    ensures
        fnv_fold(h, a + b) == fnv_fold(fnv_fold(h, a), b),
    decreases b.len(),
{
    if b.len() == 0 {
        assert(a + b =~= a);
    } else {
        law_hash_streams(h, a, b.drop_last());
        assert((a + b).drop_last() =~= a + b.drop_last());
        assert((a + b).last() == b.last());
    }
}

/// The number that eight bytes from `o` on stand for, the lowest byte first.
pub open spec fn u64_at(s: Seq<u8>, o: int) -> int {
    s[o] + s[o + 1] * 0x100 + s[o + 2] * 0x1_0000 + s[o + 3] * 0x100_0000 + s[o + 4]
        * 0x1_0000_0000 + s[o + 5] * 0x100_0000_0000 + s[o + 6] * 0x1_0000_0000_0000 + s[o + 7]
        * 0x100_0000_0000_0000
}

/// The number that four bytes from `o` on stand for, the lowest byte first.
pub open spec fn u32_at(s: Seq<u8>, o: int) -> int {
    s[o] + s[o + 1] * 0x100 + s[o + 2] * 0x1_0000 + s[o + 3] * 0x100_0000
}

/// Or-ing shifted bytes adds up their weighted values.
proof fn lemma_join_bytes(a: u8, b: u8, c: u8, d: u8, e: u8, f: u8, g: u8, h: u8)
    by (bit_vector)
    ensures
        (a as u64) | ((b as u64) << 8) | ((c as u64) << 16) | ((d as u64) << 24) | ((e as u64)
            << 32) | ((f as u64) << 40) | ((g as u64) << 48) | ((h as u64) << 56) == a + b * 0x100
            + c * 0x1_0000 + d * 0x100_0000 + e * 0x1_0000_0000 + f * 0x100_0000_0000 + g
            * 0x1_0000_0000_0000 + h * 0x100_0000_0000_0000,
        (a as u32) | ((b as u32) << 8) | ((c as u32) << 16) | ((d as u32) << 24) == a + b * 0x100
            + c * 0x1_0000 + d * 0x100_0000,
{
}

/// The bytes of a number add up to it.
proof fn lemma_split_u64(v: u64)
    by (bit_vector)
    ensures
        (v as u8) + ((v >> 8) as u8) * 0x100 + ((v >> 16) as u8) * 0x1_0000 + ((v >> 24) as u8)
            * 0x100_0000 + ((v >> 32) as u8) * 0x1_0000_0000 + ((v >> 40) as u8) * 0x100_0000_0000
            + ((v >> 48) as u8) * 0x1_0000_0000_0000 + ((v >> 56) as u8) * 0x100_0000_0000_0000
            == v,
{
}

/// The bytes of a number add up to it.
proof fn lemma_split_u32(v: u32)
    by (bit_vector)
    ensures
        (v as u8) + ((v >> 8) as u8) * 0x100 + ((v >> 16) as u8) * 0x1_0000 + ((v >> 24) as u8)
            * 0x100_0000 == v,
{
}

/// Reads eight bytes as a number.
pub fn rd_u64(b: &[u8; SECTOR_SIZE], o: usize) -> (r: u64)
    requires
        o + 8 <= SECTOR_SIZE,
    ensures
        r == u64_at(b@, o as int),
{
    proof {
        let s = b@;
        let k = o as int;
        lemma_join_bytes(
            s[k],
            s[k + 1],
            s[k + 2],
            s[k + 3],
            s[k + 4],
            s[k + 5],
            s[k + 6],
            s[k + 7],
        );
    }
    (b[o] as u64) | ((b[o + 1] as u64) << 8) | ((b[o + 2] as u64) << 16) | ((b[o + 3] as u64) << 24)
        | ((b[o + 4] as u64) << 32) | ((b[o + 5] as u64) << 40) | ((b[o + 6] as u64) << 48) | ((b[o
        + 7] as u64) << 56)
}

/// Reads four bytes as a number.
pub fn rd_u32(b: &[u8; SECTOR_SIZE], o: usize) -> (r: u32)
    requires
        o + 4 <= SECTOR_SIZE,
    ensures
        r == u32_at(b@, o as int),
{
    proof {
        let s = b@;
        let k = o as int;
        lemma_join_bytes(s[k], s[k + 1], s[k + 2], s[k + 3], 0, 0, 0, 0);
    }
    (b[o] as u32) | ((b[o + 1] as u32) << 8) | ((b[o + 2] as u32) << 16) | ((b[o + 3] as u32) << 24)
}

/// Writes a number as eight bytes.
pub fn wr_u64(b: &mut [u8; SECTOR_SIZE], o: usize, v: u64)
    requires
        o + 8 <= SECTOR_SIZE,
    ensures
        u64_at(final(b)@, o as int) == v,
        forall|j: int|
            0 <= j < SECTOR_SIZE && !(o <= j < o + 8) ==> #[trigger] final(b)@[j] == old(b)@[j],
{
    b[o] = #[verifier::truncate] (v as u8);
    b[o + 1] = #[verifier::truncate] ((v >> 8) as u8);
    b[o + 2] = #[verifier::truncate] ((v >> 16) as u8);
    b[o + 3] = #[verifier::truncate] ((v >> 24) as u8);
    b[o + 4] = #[verifier::truncate] ((v >> 32) as u8);
    b[o + 5] = #[verifier::truncate] ((v >> 40) as u8);
    b[o + 6] = #[verifier::truncate] ((v >> 48) as u8);
    b[o + 7] = #[verifier::truncate] ((v >> 56) as u8);
    proof {
        lemma_split_u64(v);
    }
}

/// Writes a number as four bytes.
pub fn wr_u32(b: &mut [u8; SECTOR_SIZE], o: usize, v: u32)
    requires
        o + 4 <= SECTOR_SIZE,
    ensures
        u32_at(final(b)@, o as int) == v,
        forall|j: int|
            0 <= j < SECTOR_SIZE && !(o <= j < o + 4) ==> #[trigger] final(b)@[j] == old(b)@[j],
{
    b[o] = #[verifier::truncate] (v as u8);
    b[o + 1] = #[verifier::truncate] ((v >> 8) as u8);
    b[o + 2] = #[verifier::truncate] ((v >> 16) as u8);
    b[o + 3] = #[verifier::truncate] ((v >> 24) as u8);
    proof {
        lemma_split_u32(v);
    }
}

/// A sector with these bytes is a superblock sector for `sb`: the fields stand at
/// their places, the last one is the hash of those before it, and all other bytes
/// are zero.
pub open spec fn is_superblock(s: Seq<u8>, sb: Superblock) -> bool {
    &&& s.len() == SECTOR_SIZE
    &&& u64_at(s, O_MAGIC as int) == SB_MAGIC
    &&& u32_at(s, O_VERSION as int) == SB_VERSION
    &&& u64_at(s, O_SEQ as int) == sb.seq
    &&& u64_at(s, O_LOG_HEAD as int) == sb.log_head_lba
    &&& u64_at(s, O_ROOT_LBA as int) == sb.root_lba
    &&& u32_at(s, O_ROOT_LEN as int) == sb.root_len
    &&& u64_at(s, O_ROOT_HASH as int) == sb.root_hash
    &&& u64_at(s, O_SB_HASH as int) == fnv(s.take(O_SB_HASH as int))
    &&& forall|j: int| 12 <= j < 16 ==> #[trigger] s[j] == 0
    &&& forall|j: int| 44 <= j < 48 ==> #[trigger] s[j] == 0
    &&& forall|j: int| 64 <= j < SECTOR_SIZE ==> #[trigger] s[j] == 0
}

/// The sector that holds this superblock.
pub fn superblock_sector(sb: &Superblock) -> (r: [u8; SECTOR_SIZE])
    ensures
        is_superblock(r@, *sb),
{
    let mut s: [u8; SECTOR_SIZE] = [0; SECTOR_SIZE];
    wr_u64(&mut s, O_MAGIC, SB_MAGIC);
    wr_u32(&mut s, O_VERSION, SB_VERSION);
    wr_u64(&mut s, O_SEQ, sb.seq);
    wr_u64(&mut s, O_LOG_HEAD, sb.log_head_lba);
    wr_u64(&mut s, O_ROOT_LBA, sb.root_lba);
    wr_u32(&mut s, O_ROOT_LEN, sb.root_len);
    wr_u64(&mut s, O_ROOT_HASH, sb.root_hash);
    let h: u64 = fnv1a(vstd::slice::slice_subrange(s.as_slice(), 0, O_SB_HASH));
    let ghost body = s@;
    wr_u64(&mut s, O_SB_HASH, h);
    assert(s@.take(O_SB_HASH as int) =~= body.take(O_SB_HASH as int));
    s
}

/// What came of reading a superblock slot. A slot that could not be read may still
/// hold the newest superblock; one that was read and holds none does not.
#[derive(Clone, Copy, Debug, PartialEq, Eq, Structural)]
pub enum SlotRead {
    Io,
    Invalid,
    Valid(Superblock),
}

/// The superblock fields of a sector.
pub open spec fn superblock_fields(s: Seq<u8>) -> Superblock {
    Superblock {
        seq: u64_at(s, O_SEQ as int) as u64,
        log_head_lba: u64_at(s, O_LOG_HEAD as int) as u64,
        root_lba: u64_at(s, O_ROOT_LBA as int) as u64,
        root_len: u32_at(s, O_ROOT_LEN as int) as u32,
        root_hash: u64_at(s, O_ROOT_HASH as int) as u64,
    }
}

/// What a sector says as a superblock slot: it is valid if the mark is there and
/// the hash fits.
pub open spec fn slot_of(s: Seq<u8>) -> SlotRead {
    if u64_at(s, O_MAGIC as int) == SB_MAGIC && u64_at(s, O_SB_HASH as int) == fnv(
        s.take(O_SB_HASH as int),
    ) {
        SlotRead::Valid(superblock_fields(s))
    } else {
        SlotRead::Invalid
    }
}

/// Judges a superblock slot by what reading its sector gave: `None` if the device
/// failed to read it.
pub fn read_superblock(read: Option<[u8; SECTOR_SIZE]>) -> (r: SlotRead)
    ensures
        r == match read {
            Some(s) => slot_of(s@),
            None => SlotRead::Io,
        },
{
    let s = match read {
        Some(s) => s,
        None => {
            return SlotRead::Io;
        },
    };
    if rd_u64(&s, O_MAGIC) != SB_MAGIC {
        return SlotRead::Invalid;
    }
    if fnv1a(vstd::slice::slice_subrange(s.as_slice(), 0, O_SB_HASH)) != rd_u64(&s, O_SB_HASH) {
        return SlotRead::Invalid;
    }
    SlotRead::Valid(
        Superblock {
            seq: rd_u64(&s, O_SEQ),
            log_head_lba: rd_u64(&s, O_LOG_HEAD),
            root_lba: rd_u64(&s, O_ROOT_LBA),
            root_len: rd_u32(&s, O_ROOT_LEN),
            root_hash: rd_u64(&s, O_ROOT_HASH),
        },
    )
}

/// The store as it is mounted, if it is.
#[derive(Clone, Copy, Debug, PartialEq, Eq, Structural)]
pub struct Store {
    pub mounted: Superblock,
    pub mounted_ok: bool,
    /// The slot that holds the mounted superblock.
    pub mounted_slot: u64,
}

impl Store {
    /// A store that is not mounted.
    pub fn new() -> (r: Store)
        ensures
            !r.mounted_ok,
            r.mounted_slot == LBA_SB_A,
            r.mounted == (Superblock {
                seq: 0,
                log_head_lba: 0,
                root_lba: 0,
                root_len: 0,
                root_hash: 0,
            }),
    {
        Store {
            mounted: Superblock {
                seq: 0,
                log_head_lba: 0,
                root_lba: 0,
                root_len: 0,
                root_hash: 0,
            },
            mounted_ok: false,
            mounted_slot: LBA_SB_A,
        }
    }

    /// The store is mounted with this superblock from this slot.
    pub open spec fn has_mounted(self, sb: Superblock, slot: u64) -> bool {
        self.mounted_ok && self.mounted == sb && self.mounted_slot == slot
    }
}

/// What mounting comes to.
#[derive(Clone, Copy, Debug, PartialEq, Eq, Structural)]
pub enum MountAction {
    /// The store is mounted.
    Mounted,
    /// Both slots are blank or torn: the disk is to be formatted with this superblock.
    Format(Superblock),
    /// A slot could not be read and no other is valid: nothing may be written.
    Refused,
}

/// The superblock of a disk that was just formatted.
pub open spec fn blank_superblock() -> Superblock {
    Superblock { seq: 1, log_head_lba: LBA_LOG_START, root_lba: 0, root_len: 0, root_hash: 0 }
}

/// The valid superblock with the higher sequence number, and its slot.
pub open spec fn newest(a: SlotRead, b: SlotRead) -> Option<(Superblock, u64)> {
    match (a, b) {
        (SlotRead::Valid(x), SlotRead::Valid(y)) => if x.seq >= y.seq {
            Some((x, LBA_SB_A))
        } else {
            Some((y, LBA_SB_B))
        },
        (SlotRead::Valid(x), _) => Some((x, LBA_SB_A)),
        (_, SlotRead::Valid(y)) => Some((y, LBA_SB_B)),
        _ => None,
    }
}

/// Mounts the newest valid superblock. Without one the disk is to be formatted,
/// but only if both slots were read: a slot that could not be read may hold the
/// newest superblock, and then the store stays as it was.
pub fn mount(store: &mut Store, a: SlotRead, b: SlotRead) -> (r: MountAction)
    ensures
        match newest(a, b) {
            Some((sb, slot)) => r == MountAction::Mounted && final(store).has_mounted(sb, slot),
            None => {
                &&& *final(store) == *old(store)
                &&& r == if a is Invalid && b is Invalid {
                    MountAction::Format(blank_superblock())
                } else {
                    MountAction::Refused
                }
            },
        },
{
    let best: Option<(Superblock, u64)> = match (a, b) {
        (SlotRead::Valid(x), SlotRead::Valid(y)) => {
            if x.seq >= y.seq {
                Some((x, LBA_SB_A))
            } else {
                Some((y, LBA_SB_B))
            }
        },
        (SlotRead::Valid(x), _) => Some((x, LBA_SB_A)),
        (_, SlotRead::Valid(y)) => Some((y, LBA_SB_B)),
        _ => None,
    };
    match best {
        Some((sb, slot)) => {
            store.mounted = sb;
            store.mounted_ok = true;
            store.mounted_slot = slot;
            MountAction::Mounted
        },
        None => {
            if matches!(a, SlotRead::Invalid) && matches!(b, SlotRead::Invalid) {
                MountAction::Format(format_superblock())
            } else {
                MountAction::Refused
            }
        },
    }
}

/// One thing to have the disk do.
#[derive(Clone, Copy, Debug)]
pub enum DiskOp {
    Write { lba: u64, sector: [u8; SECTOR_SIZE] },
    Flush,
}

impl DiskOp {
    /// The operation writes these bytes to this sector.
    pub open spec fn writes(self, lba: int, bytes: Seq<u8>) -> bool {
        self matches DiskOp::Write { lba: l, sector } && l == lba && sector@ == bytes
    }

    /// The operation writes this superblock to this sector.
    pub open spec fn writes_superblock(self, lba: u64, sb: Superblock) -> bool {
        self matches DiskOp::Write { lba: l, sector } && l == lba && is_superblock(sector@, sb)
    }
}

/// How a superblock gets to the disk for good: the write, then a flush. The write
/// counts only once the flush has succeeded.
pub fn write_superblock(slot_lba: u64, sb: &Superblock) -> (r: (DiskOp, DiskOp))
    ensures
        r.0.writes_superblock(slot_lba, *sb),
        r.1 is Flush,
{
    (DiskOp::Write { lba: slot_lba, sector: superblock_sector(sb) }, DiskOp::Flush)
}

/// How a disk is formatted: the blank superblock goes to the first slot, then a flush.
pub fn format_ops() -> (r: (DiskOp, DiskOp))
    ensures
        r.0.writes_superblock(LBA_SB_A, blank_superblock()),
        r.1 is Flush,
{
    write_superblock(LBA_SB_A, &format_superblock())
}

/// The superblock of a disk that was just formatted.
fn format_superblock() -> (r: Superblock)
    ensures
        r == blank_superblock(),
{
    Superblock { seq: 1, log_head_lba: LBA_LOG_START, root_lba: 0, root_len: 0, root_hash: 0 }
}

/// Takes the outcome of formatting: the store is mounted if the superblock was written and
/// flushed, and stays as it was if not.
pub fn mount_formatted(store: &mut Store, wrote: bool, flushed: bool)
    ensures
        wrote && flushed ==> final(store).has_mounted(blank_superblock(), LBA_SB_A),
        !(wrote && flushed) ==> *final(store) == *old(store),
{
    if wrote && flushed {
        store.mounted = format_superblock();
        store.mounted_ok = true;
        store.mounted_slot = LBA_SB_A;
    }
}

/// How many sectors an object of this length takes.
pub open spec fn sectors_for(len: int) -> int {
    (len + 511) / 512
}

/// Sector `i` of the object, filled up with zeroes.
pub open spec fn data_sector(bytes: Seq<u8>, i: int) -> Seq<u8> {
    Seq::new(
        512,
        |j: int|
            if i * 512 + j < bytes.len() {
                bytes[i * 512 + j]
            } else {
                0u8
            },
    )
}

/// A sector with these bytes is a record header: mark, length, content hash and
/// the object before, then the hash of these fields, and zeroes elsewhere.
pub open spec fn is_record_header(s: Seq<u8>, len: u32, hash: u64, prev: u64) -> bool {
    &&& s.len() == SECTOR_SIZE
    &&& u64_at(s, RH_MAGIC as int) == REC_MAGIC
    &&& u32_at(s, RH_LEN as int) == len
    &&& u64_at(s, RH_HASH as int) == hash
    &&& u64_at(s, RH_PREV as int) == prev
    &&& u64_at(s, RH_HDR_HASH as int) == fnv(s.take(RH_HDR_HASH as int))
    &&& forall|j: int| 12 <= j < 16 ==> #[trigger] s[j] == 0
    &&& forall|j: int| 40 <= j < SECTOR_SIZE ==> #[trigger] s[j] == 0
}

/// What it takes to store an object: `n_ops` disk operations, in order. The object
/// is stored once all of them have succeeded.
#[derive(Clone, Copy, Debug, PartialEq, Eq, Structural)]
pub struct PutPlan {
    pub data_lba: u64,
    pub ndata: u64,
    pub len: u32,
    pub hash: u64,
    pub prev_root: u64,
    pub new_sb: Superblock,
    pub new_slot: u64,
}

impl PutPlan {
    /// The plan stores `bytes` in `store`: the data goes to the head of the log,
    /// the header behind it, and the superblock that names them to the other slot.
    pub open spec fn stores(self, store: Store, bytes: Seq<u8>) -> bool {
        &&& bytes.len() <= u32::MAX
        &&& self.data_lba == store.mounted.log_head_lba
        &&& self.ndata == sectors_for(bytes.len() as int)
        &&& self.len == bytes.len()
        &&& self.hash == fnv(bytes)
        &&& self.prev_root == store.mounted.root_lba
        &&& self.new_sb.seq == store.mounted.seq + 1
        &&& self.new_sb.log_head_lba == self.data_lba + self.ndata + 1
        &&& self.new_sb.root_lba == self.data_lba
        &&& self.new_sb.root_len == self.len
        &&& self.new_sb.root_hash == self.hash
        &&& self.new_slot == if store.mounted_slot == LBA_SB_A {
            LBA_SB_B
        } else {
            LBA_SB_A
        }
    }

    /// The plan was made for the store as it is: it writes at the head of the log, takes
    /// the next sequence number, and spares the live superblock.
    pub open spec fn follows(self, store: Store) -> bool {
        &&& self.data_lba == store.mounted.log_head_lba
        &&& self.new_sb.seq == store.mounted.seq + 1
        &&& self.new_slot != store.mounted_slot
    }

    /// The number of disk operations.
    pub open spec fn op_count(self) -> int {
        self.ndata + 4
    }

    /// Operation `i` of the plan: first the data, then the header, a flush, the
    /// superblock, a flush.
    pub open spec fn op_is(self, bytes: Seq<u8>, i: int, op: DiskOp) -> bool {
        if i < self.ndata {
            op.writes(self.data_lba + i, data_sector(bytes, i))
        } else if i == self.ndata {
            op matches DiskOp::Write { lba, sector } && lba == self.data_lba + self.ndata
                && is_record_header(sector@, self.len, self.hash, self.prev_root)
        } else if i == self.ndata + 2 {
            op.writes_superblock(self.new_slot, self.new_sb)
        } else {
            op is Flush
        }
    }

    /// The number of disk operations.
    pub fn n_ops(&self) -> (r: u64)
        requires
            self.op_count() <= u64::MAX,
        ensures
            r == self.op_count(),
    {
        self.ndata + 4
    }

    /// Disk operation `i`. `bytes` is the object that the plan was made for.
    pub fn op(&self, bytes: &[u8], i: u64) -> (r: DiskOp)
        requires
            bytes@.len() <= u32::MAX,
            self.ndata == sectors_for(bytes@.len() as int),
            self.data_lba + self.ndata <= u64::MAX,
            i < self.op_count(),
        ensures
            self.op_is(bytes@, i as int, r),
    {
        if i < self.ndata {
            DiskOp::Write { lba: self.data_lba + i, sector: fill_sector(bytes, i as usize) }
        } else if i == self.ndata {
            DiskOp::Write {
                lba: self.data_lba + self.ndata,
                sector: record_header(self.len, self.hash, self.prev_root),
            }
        } else if i == self.ndata + 2 {
            let (write, _) = write_superblock(self.new_slot, &self.new_sb);
            write
        } else {
            DiskOp::Flush
        }
    }
}

/// Sector `i` of the object, filled up with zeroes.
fn fill_sector(bytes: &[u8], i: usize) -> (r: [u8; SECTOR_SIZE])
    requires
        bytes@.len() <= u32::MAX,
        i * 512 < bytes@.len(),
    ensures
        r@ == data_sector(bytes@, i as int),
{
    let mut sect: [u8; SECTOR_SIZE] = [0; SECTOR_SIZE];
    let written: usize = i * 512;
    let remaining: usize = bytes.len() - written;
    let n: usize = if remaining >= 512 {
        512
    } else {
        remaining
    };
    let mut j: usize = 0;
    while j < n
        invariant
            j <= n <= 512,
            written == i * 512,
            written + n <= bytes@.len(),
            forall|k: int| 0 <= k < j ==> #[trigger] sect@[k] == bytes@[written + k],
            forall|k: int| j <= k < 512 ==> #[trigger] sect@[k] == 0,
        decreases n - j,
    {
        sect[j] = bytes[written + j];
        j = j + 1;
    }
    assert(sect@ =~= data_sector(bytes@, i as int));
    sect
}

/// The record header of an object.
fn record_header(len: u32, hash: u64, prev: u64) -> (r: [u8; SECTOR_SIZE])
    ensures
        is_record_header(r@, len, hash, prev),
{
    let mut hdr: [u8; SECTOR_SIZE] = [0; SECTOR_SIZE];
    wr_u64(&mut hdr, RH_MAGIC, REC_MAGIC);
    wr_u32(&mut hdr, RH_LEN, len);
    wr_u64(&mut hdr, RH_HASH, hash);
    wr_u64(&mut hdr, RH_PREV, prev);
    let hh: u64 = fnv1a(vstd::slice::slice_subrange(hdr.as_slice(), 0, RH_HDR_HASH));
    let ghost body = hdr@;
    wr_u64(&mut hdr, RH_HDR_HASH, hh);
    assert(hdr@.take(RH_HDR_HASH as int) =~= body.take(RH_HDR_HASH as int));
    hdr
}

/// The sequence number and the log have room for one more object of this length.
pub open spec fn has_room(store: Store, len: int) -> bool {
    store.mounted_ok && len <= u32::MAX ==> {
        &&& store.mounted.seq < u64::MAX
        &&& store.mounted.log_head_lba + sectors_for(len) + 1 <= u64::MAX
    }
}

/// Plans how to append `bytes` to the log and commit it. Answers `None` when the
/// store is not mounted or the object is too long.
pub fn put(store: &Store, bytes: &[u8]) -> (r: Option<PutPlan>)
    requires
        has_room(*store, bytes@.len() as int),
    ensures
        match r {
            Some(plan) => store.mounted_ok && plan.stores(*store, bytes@) && plan.follows(*store),
            None => !store.mounted_ok || bytes@.len() > u32::MAX,
        },
{
    if !store.mounted_ok {
        return None;
    }
    let cur = store.mounted;
    let len: usize = bytes.len();
    if len as u64 > u32::MAX as u64 {
        return None;
    }
    let ndata: u64 = (len as u64 + 511) / 512;
    let data_lba: u64 = cur.log_head_lba;
    let h: u64 = fnv1a(bytes);
    let new_sb = Superblock {
        seq: cur.seq + 1,
        log_head_lba: data_lba + ndata + 1,
        root_lba: data_lba,
        root_len: len as u32,
        root_hash: h,
    };
    let other: u64 = if store.mounted_slot == LBA_SB_A {
        LBA_SB_B
    } else {
        LBA_SB_A
    };
    Some(
        PutPlan {
            data_lba,
            ndata,
            len: len as u32,
            hash: h,
            prev_root: cur.root_lba,
            new_sb,
            new_slot: other,
        },
    )
}

/// A plan as it is carried out: the operations come out one by one, in order, and none
/// comes out after one that failed.
#[derive(Clone, Copy, Debug, PartialEq, Eq, Structural)]
pub struct PutRun {
    pub plan: PutPlan,
    /// How many operations have succeeded.
    pub at: u64,
    pub failed: bool,
}

impl PutRun {
    /// The run of a plan before its first operation.
    pub open spec fn begun(plan: PutPlan) -> PutRun {
        PutRun { plan, at: 0, failed: false }
    }

    /// No more operations have succeeded than there are.
    pub open spec fn wf(self) -> bool {
        self.at <= self.plan.op_count() <= u64::MAX
    }

    /// There is another operation.
    pub open spec fn goes_on(self) -> bool {
        !self.failed && self.at < self.plan.op_count()
    }

    /// All operations have succeeded.
    pub open spec fn done(self) -> bool {
        !self.failed && self.at == self.plan.op_count()
    }

    /// The run after an operation.
    pub open spec fn after(self, ok: bool) -> PutRun {
        if ok {
            PutRun { at: (self.at + 1) as u64, ..self }
        } else {
            PutRun { failed: true, ..self }
        }
    }

    /// Starts to carry a plan out.
    pub fn start(plan: PutPlan) -> (r: PutRun)
        requires
            plan.op_count() <= u64::MAX,
        ensures
            r == PutRun::begun(plan),
            r.wf(),
    {
        PutRun { plan, at: 0, failed: false }
    }

    /// The operation that comes next, or `None` when one has failed or all have succeeded.
    /// `bytes` is the object that the plan was made for.
    pub fn next(&self, bytes: &[u8]) -> (r: Option<DiskOp>)
        requires
            self.wf(),
            bytes@.len() <= u32::MAX,
            self.plan.ndata == sectors_for(bytes@.len() as int),
            self.plan.data_lba + self.plan.ndata <= u64::MAX,
        ensures
            r is Some <==> self.goes_on(),
            r is Some ==> self.plan.op_is(bytes@, self.at as int, r->0),
    {
        if self.failed || self.at >= self.plan.n_ops() {
            return None;
        }
        Some(self.plan.op(bytes, self.at))
    }

    /// Takes the outcome of the operation.
    pub fn advance(&mut self, ok: bool)
        requires
            old(self).wf(),
            old(self).goes_on(),
        ensures
            *final(self) == old(self).after(ok),
            final(self).wf(),
    {
        if ok {
            self.at = self.at + 1;
        } else {
            self.failed = true;
        }
    }
}

/// Takes the outcome of a plan that was made for the store as it is. If all operations
/// have succeeded the object is in the store, and its place, length and hash are given; if
/// not nothing changes.
pub fn put_commit(store: &mut Store, run: &PutRun) -> (r: Option<(u64, u32, u64)>)
    requires
        old(store).mounted_ok,
        run.wf(),
        run.plan.follows(*old(store)),
    ensures
        run.done() ==> {
            &&& r == Some((run.plan.data_lba, run.plan.len, run.plan.hash))
            &&& final(store).has_mounted(run.plan.new_sb, run.plan.new_slot)
        },
        !run.done() ==> r is None && *final(store) == *old(store),
{
    if run.failed || run.at < run.plan.n_ops() {
        return None;
    }
    store.mounted = run.plan.new_sb;
    store.mounted_slot = run.plan.new_slot;
    Some((run.plan.data_lba, run.plan.len, run.plan.hash))
}

/// What the disk holds, by sector.
pub type Disk = Map<u64, Seq<u8>>;

/// The first `n` bytes from sector `lba` on.
pub open spec fn disk_bytes(disk: Disk, lba: u64, n: int) -> Seq<u8> {
    Seq::new(n as nat, |j: int| disk[(lba + j / 512) as u64][j % 512])
}

/// The sectors of an extent have numbers that fit a machine word.
pub open spec fn extent_in_range(lba: u64, len: u32) -> bool {
    lba + sectors_for(len as int) <= u64::MAX + 1
}

/// How many of the object's bytes the first `n` sectors hold.
pub open spec fn bytes_in(n: int, len: u32) -> int {
    if n * 512 <= len {
        n * 512
    } else {
        len as int
    }
}

/// Reads an extent sector by sector and hashes its bytes.
#[derive(Clone, Copy, Debug, PartialEq, Eq, Structural)]
pub struct ExtentReader {
    pub lba: u64,
    pub len: u32,
    /// How many sectors were taken in.
    pub taken: u64,
    pub hash: u64,
}

impl ExtentReader {
    pub open spec fn wf(self) -> bool {
        extent_in_range(self.lba, self.len) && self.taken <= sectors_for(self.len as int)
    }

    /// All sectors were taken in.
    pub open spec fn complete(self) -> bool {
        self.taken == sectors_for(self.len as int)
    }

    /// The running hash is that of the bytes that this disk holds in the sectors
    /// that were taken in.
    pub open spec fn agrees(self, disk: Disk) -> bool {
        self.hash == fnv(disk_bytes(disk, self.lba, bytes_in(self.taken as int, self.len)))
    }

    /// The sector to read next, or `None` when all were taken in.
    pub fn next_lba(&self) -> (r: Option<u64>)
        requires
            self.wf(),
        ensures
            r == if self.complete() {
                None
            } else {
                Some((self.lba + self.taken) as u64)
            },
    {
        let nsect: u64 = (self.len as u64 + 511) / 512;
        if self.taken < nsect {
            Some(self.lba + self.taken)
        } else {
            None
        }
    }

    /// Takes the next sector in. Bytes past the extent's length are left out.
    pub fn absorb(&mut self, sector: &[u8; SECTOR_SIZE])
        requires
            old(self).wf(),
            !old(self).complete(),
        ensures
            final(self).wf(),
            final(self).lba == old(self).lba,
            final(self).len == old(self).len,
            final(self).taken == old(self).taken + 1,
            final(self).hash == fnv_fold(
                old(self).hash,
                sector@.take(
                    bytes_in(old(self).taken + 1, old(self).len) - bytes_in(
                        old(self).taken as int,
                        old(self).len,
                    ),
                ),
            ),
            forall|disk: Disk|
                #![trigger old(self).agrees(disk)]
                #![trigger final(self).agrees(disk)]
                old(self).agrees(disk) && disk[(old(self).lba + old(self).taken) as u64]
                    == sector@ ==> final(self).agrees(disk),
    {
        let remaining: u64 = self.len as u64 - self.taken * 512;
        let n: usize = if remaining >= 512 {
            512
        } else {
            remaining as usize
        };
        let part = vstd::slice::slice_subrange(sector.as_slice(), 0, n);
        self.hash = fnv1a_step(self.hash, part);
        self.taken = self.taken + 1;
        proof {
            let before = *old(self);
            assert(part@ =~= sector@.take(
                bytes_in(before.taken + 1, before.len) - bytes_in(
                    before.taken as int,
                    before.len,
                ),
            ));
            assert forall|disk: Disk|
                before.agrees(disk) && disk[(before.lba + before.taken) as u64]
                    == sector@ implies #[trigger] self.agrees(disk) by {
                let old_bytes = disk_bytes(
                    disk,
                    before.lba,
                    bytes_in(before.taken as int, before.len),
                );
                let new_bytes = disk_bytes(disk, self.lba, bytes_in(self.taken as int, self.len));
                assert(new_bytes =~= old_bytes + part@) by {
                    assert forall|j: int| 0 <= j < new_bytes.len() implies new_bytes[j] == (
                    old_bytes + part@)[j] by {
                        if j >= old_bytes.len() {
                            assert(j / 512 == before.taken);
                            assert(j % 512 == j - old_bytes.len());
                        }
                    }
                }
                law_hash_streams(FNV1A_BASIS, old_bytes, part@);
            }
        }
    }

    /// The content hash of the extent, once all sectors were taken in.
    pub fn finish(&self) -> (r: u64)
        requires
            self.wf(),
            self.complete(),
        ensures
            r == self.hash,
            forall|disk: Disk| #[trigger]
                self.agrees(disk) ==> r == fnv(disk_bytes(disk, self.lba, self.len as int)),
    {
        self.hash
    }
}

/// Starts to read an extent back and hash it. With every sector taken in, the hash
/// is that of the bytes on the disk.
pub fn extent_content_hash(lba: u64, len: u32) -> (r: ExtentReader)
    requires
        extent_in_range(lba, len),
    ensures
        r.wf(),
        r.lba == lba,
        r.len == len,
        r.taken == 0,
        forall|disk: Disk| #[trigger] r.agrees(disk),
{
    let r = ExtentReader { lba, len, taken: 0, hash: FNV1A_BASIS };
    proof {
        assert forall|disk: Disk| #[trigger] r.agrees(disk) by {
            assert(disk_bytes(disk, lba, 0) =~= Seq::<u8>::empty());
        }
    }
    r
}

/// The store is mounted and names an object.
pub open spec fn has_root(store: Store) -> bool {
    store.mounted_ok && store.mounted.root_len != 0
}

/// Starts to check the newest object of the mounted store. Answers `None` when the
/// store is not mounted or has no object.
pub fn recover(store: &Store) -> (r: Option<ExtentReader>)
    requires
        has_root(*store) ==> extent_in_range(store.mounted.root_lba, store.mounted.root_len),
    ensures
        match r {
            Some(reader) => {
                &&& has_root(*store)
                &&& reader.wf()
                &&& reader.lba == store.mounted.root_lba
                &&& reader.len == store.mounted.root_len
                &&& reader.taken == 0
                &&& forall|disk: Disk| #[trigger] reader.agrees(disk)
            },
            None => !has_root(*store),
        },
{
    let cur = store.mounted;
    if !store.mounted_ok || cur.root_len == 0 {
        return None;
    }
    Some(extent_content_hash(cur.root_lba, cur.root_len))
}

/// What is recovered when the bytes of the newest object hash to `hash`: its place, length
/// and hash, or nothing if the superblock says otherwise.
pub open spec fn recovered(store: Store, hash: Option<u64>) -> Option<(u64, u32, u64)> {
    if has_root(store) && hash == Some(store.mounted.root_hash) {
        Some((store.mounted.root_lba, store.mounted.root_len, store.mounted.root_hash))
    } else {
        None
    }
}

/// Gives the place, length and hash of the newest object if its bytes, read back,
/// hash to what the superblock says. `hash` is `None` if they could not be read.
pub fn recover_finish(store: &Store, hash: Option<u64>) -> (r: Option<(u64, u32, u64)>)
    ensures
        r == recovered(*store, hash),
{
    let cur = store.mounted;
    if !store.mounted_ok || cur.root_len == 0 {
        return None;
    }
    match hash {
        Some(h) => {
            if h == cur.root_hash {
                Some((cur.root_lba, cur.root_len, cur.root_hash))
            } else {
                None
            }
        },
        None => None,
    }
}

/// Bytes in a page.
pub const PAGE_SIZE: usize = 4096;

/// The page holds the first `n` bytes that the disk has from `lba` on, and zeroes
/// behind them.
pub open spec fn page_holds(page: Seq<u8>, disk: Disk, lba: u64, n: int) -> bool {
    &&& page.len() == PAGE_SIZE
    &&& page.take(n) == disk_bytes(disk, lba, n)
    &&& forall|j: int| n <= j < PAGE_SIZE ==> #[trigger] page[j] == 0
}

/// Loads an extent into a frame, sector by sector.
#[derive(Clone, Copy, Debug, PartialEq, Eq, Structural)]
pub struct ExtentLoad {
    pub frame: u64,
    pub lba: u64,
    pub len: u32,
    /// How many sectors were placed.
    pub placed: u64,
}

impl ExtentLoad {
    pub open spec fn wf(self) -> bool {
        &&& crate::memory::addressable(self.frame as int)
        &&& extent_in_range(self.lba, self.len)
        &&& 1 <= self.len <= PAGE_SIZE
        &&& self.placed <= sectors_for(self.len as int)
    }

    /// All sectors were placed.
    pub open spec fn complete(self) -> bool {
        self.placed == sectors_for(self.len as int)
    }

    /// The page holds what was placed so far, as this disk has it.
    pub open spec fn agrees(self, page: Seq<u8>, disk: Disk) -> bool {
        page_holds(page, disk, self.lba, bytes_in(self.placed as int, self.len))
    }

    /// Clears the page before the first sector is placed.
    pub fn clear(&self, page: &mut [u8; PAGE_SIZE])
        requires
            self.wf(),
        ensures
            forall|j: int| 0 <= j < PAGE_SIZE ==> #[trigger] final(page)@[j] == 0,
            forall|disk: Disk| self.placed == 0 ==> #[trigger] self.agrees(final(page)@, disk),
    {
        let mut i: usize = 0;
        while i < PAGE_SIZE
            invariant
                i <= PAGE_SIZE,
                forall|j: int| 0 <= j < i ==> #[trigger] page@[j] == 0,
            decreases PAGE_SIZE - i,
        {
            page[i] = 0;
            i = i + 1;
        }
        proof {
            assert forall|disk: Disk| self.placed == 0 implies #[trigger] self.agrees(
                page@,
                disk,
            ) by {
                assert(page@.take(0) =~= disk_bytes(disk, self.lba, 0));
            }
        }
    }

    /// The sector to read next, or `None` when all were placed.
    pub fn next_lba(&self) -> (r: Option<u64>)
        requires
            self.wf(),
        ensures
            r == if self.complete() {
                None
            } else {
                Some((self.lba + self.placed) as u64)
            },
    {
        let nsect: u64 = (self.len as u64 + 511) / 512;
        if self.placed < nsect {
            Some(self.lba + self.placed)
        } else {
            None
        }
    }

    /// Places the next sector in the page. Bytes past the extent's length are left
    /// out.
    pub fn place(&mut self, page: &mut [u8; PAGE_SIZE], sector: &[u8; SECTOR_SIZE])
        requires
            old(self).wf(),
            !old(self).complete(),
        ensures
            final(self).wf(),
            *final(self) == (ExtentLoad {
                placed: (old(self).placed + 1) as u64,
                ..*old(self)
            }),
            forall|j: int|
                0 <= j < PAGE_SIZE ==> #[trigger] final(page)@[j] == if old(self).placed * 512 <= j
                    < bytes_in(old(self).placed + 1, old(self).len) {
                    sector@[j - old(self).placed * 512]
                } else {
                    old(page)@[j]
                },
            forall|disk: Disk|
                old(self).agrees(old(page)@, disk) && disk[(old(self).lba + old(
                    self,
                ).placed) as u64] == sector@ ==> #[trigger] final(self).agrees(final(page)@, disk),
    {
        let off: usize = self.placed as usize * 512;
        let rest: usize = self.len as usize - off;
        let n: usize = if rest >= 512 {
            512
        } else {
            rest
        };
        let ghost before = page@;
        let mut j: usize = 0;
        while j < n
            invariant
                j <= n <= 512,
                off + n <= PAGE_SIZE,
                forall|k: int|
                    0 <= k < PAGE_SIZE ==> #[trigger] page@[k] == if off <= k < off + j {
                        sector@[k - off]
                    } else {
                        before[k]
                    },
            decreases n - j,
        {
            page[off + j] = sector[j];
            j = j + 1;
        }
        self.placed = self.placed + 1;
        proof {
            let load = *old(self);
            assert forall|disk: Disk|
                load.agrees(before, disk) && disk[(load.lba + load.placed) as u64]
                    == sector@ implies #[trigger] self.agrees(page@, disk) by {
                let m = bytes_in(load.placed as int, load.len);
                let n1 = bytes_in(self.placed as int, self.len);
                let want = disk_bytes(disk, self.lba, n1);
                let had = disk_bytes(disk, load.lba, m);
                assert forall|k: int| 0 <= k < n1 implies page@.take(n1)[k] == want[k] by {
                    if k < m {
                        assert(before.take(m)[k] == had[k]);
                    } else {
                        assert(k / 512 == load.placed);
                        assert(k % 512 == k - off);
                    }
                }
                assert(page@.take(n1) =~= want);
            }
        }
    }

    /// The address of the loaded extent, once all sectors were placed.
    pub fn finish(&self) -> (r: u64)
        requires
            self.wf(),
            self.complete(),
        ensures
            r == self.frame * 4096,
            forall|page: Seq<u8>, disk: Disk| #[trigger]
                self.agrees(page, disk) ==> page_holds(page, disk, self.lba, self.len as int),
    {
        self.frame * 4096
    }
}

/// Starts to load an extent into a fresh frame. Answers `None` when the extent is
/// empty, does not fit one page, or no frame is free.
pub fn load_extent(mem: &mut Memory, lba: u64, len: u32) -> (r: Option<ExtentLoad>)
    requires
        old(mem).wf(),
        1 <= len <= PAGE_SIZE ==> extent_in_range(lba, len),
    ensures
        final(mem).wf(),
        final(mem).hhdm_offset == old(mem).hhdm_offset,
        match r {
            Some(load) => {
                &&& load.wf()
                &&& crate::memory::takes_lowest(
                    old(mem).frames(),
                    load.frame as int,
                    final(mem).frames(),
                )
                &&& crate::memory::returnable(
                    final(mem).frame_allocator.regions@,
                    load.frame as int,
                )
                &&& load.lba == lba
                &&& load.len == len
                &&& load.placed == 0
            },
            None => {
                &&& *final(mem) == *old(mem)
                &&& len == 0 || len > PAGE_SIZE || old(mem).frames() == Set::<int>::empty()
            },
        },
{
    if len == 0 || len > 4096 {
        return None;
    }
    match allocate_frame(mem) {
        Some(frame) => {
            assert(old(mem).frames().contains(frame as int));
            Some(ExtentLoad { frame, lba, len, placed: 0 })
        },
        None => None,
    }
}

/// Gives the frame back when a sector could not be read.
pub fn load_failed(mem: &mut Memory, load: &ExtentLoad)
    requires
        old(mem).wf(),
        load.wf(),
    ensures
        final(mem).wf(),
        crate::memory::frame_returned(*old(mem), *final(mem), load.frame),
{
    deallocate_frame(mem, load.frame);
}

/// The disk as it reads after one operation that succeeded.
pub open spec fn after_op(disk: Disk, op: DiskOp) -> Disk {
    match op {
        DiskOp::Write { lba, sector } => disk.insert(lba, sector@),
        DiskOp::Flush => disk,
    }
}

/// The disk as it reads after operations that succeeded, in order.
pub open spec fn after_ops(disk: Disk, ops: Seq<DiskOp>) -> Disk
    decreases ops.len(),
{
    if ops.len() == 0 {
        disk
    } else {
        after_op(after_ops(disk, ops.drop_last()), ops.last())
    }
}

/// What a crash makes of a write that was not flushed: nothing of it is on the disk, all of
/// it is, or its sector holds these bytes instead.
pub enum Fate {
    Lost,
    Kept,
    Torn(Seq<u8>),
}

/// What a crash leaves on the disk after these operations. A write is on the disk for good
/// only once a flush has succeeded after it. Each later write has its own fate. An operation
/// that failed, or was under way, counts as one of them, if it was a write.
pub open spec fn left_after(disk: Disk, ops: Seq<DiskOp>, fates: Seq<Fate>) -> Disk
    decreases ops.len(),
{
    if ops.len() == 0 {
        disk
    } else {
        let before = left_after(disk, ops.drop_last(), fates);
        match ops.last() {
            DiskOp::Flush => after_ops(disk, ops),
            DiskOp::Write { lba, sector } => match fates[ops.len() - 1] {
                Fate::Lost => before,
                Fate::Kept => before.insert(lba, sector@),
                Fate::Torn(bytes) => before.insert(lba, bytes),
            },
        }
    }
}

/// If the operation is a write of a superblock slot that is torn, the slot fails its hash.
pub open spec fn tear_shows(op: DiskOp, fate: Fate) -> bool {
    match (op, fate) {
        (DiskOp::Write { lba, sector }, Fate::Torn(bytes)) => lba < LBA_LOG_START ==> slot_of(
            bytes,
        ) is Invalid,
        _ => true,
    }
}

/// A superblock that was torn fails its hash.
pub open spec fn tears_show(ops: Seq<DiskOp>, fates: Seq<Fate>) -> bool {
    forall|i: int| 0 <= i < ops.len() ==> tear_shows(#[trigger] ops[i], fates[i])
}

/// Mounting this disk gives this superblock, from this slot.
pub open spec fn mounts(disk: Disk, sb: Superblock, slot: u64) -> bool {
    newest(slot_of(disk[LBA_SB_A]), slot_of(disk[LBA_SB_B])) == Some((sb, slot))
}

/// The log starts behind the superblocks, and the newest object lies in it.
pub open spec fn log_sound(sb: Superblock) -> bool {
    &&& sb.log_head_lba >= LBA_LOG_START
    &&& sb.root_len > 0 ==> {
        &&& sb.root_lba >= LBA_LOG_START
        &&& sb.root_lba + sectors_for(sb.root_len as int) <= sb.log_head_lba
    }
}

/// `ops` are the first operations of the plan.
pub open spec fn plan_prefix(plan: PutPlan, bytes: Seq<u8>, ops: Seq<DiskOp>) -> bool {
    &&& ops.len() <= plan.op_count()
    &&& forall|i: int| 0 <= i < ops.len() ==> plan.op_is(bytes, i, #[trigger] ops[i])
}

/// A superblock that was written reads back as the same superblock.
pub proof fn law_superblock_reads_back(s: Seq<u8>, sb: Superblock)
    requires
        is_superblock(s, sb),
    ensures
        slot_of(s) == SlotRead::Valid(sb),
{
}

/// A disk that was formatted mounts: once the blank superblock is in the first slot, and
/// the second held none, the store is empty and its log is ready to be written.
pub proof fn law_formatted_disk_mounts(disk: Disk, sector: Seq<u8>)
    requires
        slot_of(disk[LBA_SB_B]) is Invalid,
        is_superblock(sector, blank_superblock()),
    ensures
        mounts(disk.insert(LBA_SB_A, sector), blank_superblock(), LBA_SB_A),
        log_sound(blank_superblock()),
{
    law_superblock_reads_back(sector, blank_superblock());
}

/// What the first operations of a plan leave on the disk: sectors outside the log's
/// new part and the spare superblock slot stay as they were, the data sectors
/// written so far are in place, and the spare slot holds its old contents up to
/// the commit and the new superblock from then on.
proof fn lemma_plan_on_disk(
    disk: Disk,
    store: Store,
    bytes: Seq<u8>,
    plan: PutPlan,
    ops: Seq<DiskOp>,
)
    requires
        plan.stores(store, bytes),
        store.mounted.log_head_lba >= LBA_LOG_START,
        plan_prefix(plan, bytes, ops),
    ensures
        ({
            let after = after_ops(disk, ops);
            &&& forall|l: u64|
                l != plan.new_slot && !(plan.data_lba <= l <= plan.data_lba + plan.ndata)
                    ==> #[trigger] after[l] == disk[l]
            &&& forall|i: int|
                0 <= i < plan.ndata && i < ops.len() ==> after[(plan.data_lba + i) as u64]
                    == #[trigger] data_sector(bytes, i)
            &&& ops.len() <= plan.ndata + 2 ==> after[plan.new_slot] == disk[plan.new_slot]
            &&& ops.len() >= plan.ndata + 3 ==> is_superblock(after[plan.new_slot], plan.new_sb)
        }),
    decreases ops.len(),
{
    if ops.len() > 0 {
        let before = after_ops(disk, ops.drop_last());
        let after = after_ops(disk, ops);
        let k = ops.len() - 1;
        assert(plan_prefix(plan, bytes, ops.drop_last())) by {
            assert forall|i: int| 0 <= i < ops.drop_last().len() implies plan.op_is(
                bytes,
                i,
                #[trigger] ops.drop_last()[i],
            ) by {
                assert(ops.drop_last()[i] == ops[i]);
            }
        }
        lemma_plan_on_disk(disk, store, bytes, plan, ops.drop_last());
        assert(plan.op_is(bytes, k, ops[k]));
        assert forall|i: int| 0 <= i < plan.ndata && i < ops.len() implies after[(plan.data_lba
            + i) as u64] == #[trigger] data_sector(bytes, i) by {
            if i < k {
                assert(before[(plan.data_lba + i) as u64] == data_sector(bytes, i));
            }
        }
    }
}

/// What a crash leaves of the first operations of a plan, whatever becomes of the writes
/// that were not flushed: sectors outside the log's new part and the spare superblock slot
/// are as they were, the data is in place from the first flush on, and the spare slot holds
/// its old contents up to the commit, the new superblock from the second flush on, and in
/// between either of them or no superblock.
proof fn lemma_crash_on_disk(
    disk: Disk,
    store: Store,
    bytes: Seq<u8>,
    plan: PutPlan,
    ops: Seq<DiskOp>,
    fates: Seq<Fate>,
)
    requires
        plan.stores(store, bytes),
        store.mounted.log_head_lba >= LBA_LOG_START,
        plan_prefix(plan, bytes, ops),
        tears_show(ops, fates),
    ensures
        ({
            let left = left_after(disk, ops, fates);
            let spare = left[plan.new_slot];
            &&& forall|l: u64|
                l != plan.new_slot && !(plan.data_lba <= l <= plan.data_lba + plan.ndata)
                    ==> #[trigger] left[l] == disk[l]
            &&& ops.len() >= plan.ndata + 2 ==> forall|i: int|
                0 <= i < plan.ndata ==> left[(plan.data_lba + i) as u64] == #[trigger] data_sector(
                    bytes,
                    i,
                )
            &&& ops.len() <= plan.ndata + 2 ==> spare == disk[plan.new_slot]
            &&& ops.len() == plan.ndata + 3 ==> match fates[plan.ndata + 2] {
                Fate::Lost => spare == disk[plan.new_slot],
                Fate::Kept => is_superblock(spare, plan.new_sb),
                Fate::Torn(_) => slot_of(spare) is Invalid,
            }
            &&& ops.len() >= plan.ndata + 4 ==> is_superblock(spare, plan.new_sb)
        }),
    decreases ops.len(),
{
    if ops.len() > 0 {
        let most = ops.drop_last();
        let k = ops.len() - 1;
        let before = left_after(disk, most, fates);
        let left = left_after(disk, ops, fates);
        assert forall|i: int| 0 <= i < most.len() implies #[trigger] most[i] == ops[i] by {}
        assert(plan_prefix(plan, bytes, most)) by {
            assert forall|i: int| 0 <= i < most.len() implies plan.op_is(
                bytes,
                i,
                #[trigger] most[i],
            ) by {
                assert(plan.op_is(bytes, i, ops[i]));
            }
        }
        assert(tears_show(most, fates)) by {
            assert forall|i: int| 0 <= i < most.len() implies tear_shows(
                #[trigger] most[i],
                fates[i],
            ) by {
                assert(most[i] == ops[i]);
            }
        }
        lemma_crash_on_disk(disk, store, bytes, plan, most, fates);
        assert(plan.op_is(bytes, k, ops[k]));
        assert(tear_shows(ops[k], fates[k]));
        if ops[k] is Flush {
            lemma_plan_on_disk(disk, store, bytes, plan, ops);
        } else if k == plan.ndata + 2 {
            assert forall|i: int| 0 <= i < plan.ndata implies left[(plan.data_lba + i) as u64]
                == #[trigger] data_sector(bytes, i) by {
                assert(before[(plan.data_lba + i) as u64] == data_sector(bytes, i));
            }
        }
    }
}

/// With its data in place, the object is what the disk holds where the plan put it.
proof fn lemma_data_is_object(disk: Disk, bytes: Seq<u8>, plan: PutPlan)
    requires
        plan.data_lba + plan.ndata <= u64::MAX,
        plan.ndata == sectors_for(bytes.len() as int),
        forall|i: int|
            0 <= i < plan.ndata ==> disk[(plan.data_lba + i) as u64] == #[trigger] data_sector(
                bytes,
                i,
            ),
    ensures
        disk_bytes(disk, plan.data_lba, bytes.len() as int) == bytes,
{
    let stored = disk_bytes(disk, plan.data_lba, bytes.len() as int);
    assert forall|j: int| 0 <= j < bytes.len() implies stored[j] == bytes[j] by {
        let i = j / 512;
        assert(0 <= i < plan.ndata);
        assert(disk[(plan.data_lba + i) as u64] == data_sector(bytes, i));
        assert(i * 512 + j % 512 == j);
    }
    assert(stored =~= bytes);
}

/// A crash keeps the store whole. Whenever it strikes while an object is stored, and
/// whatever becomes of each write that was not flushed, the disk mounts the old superblock,
/// or it mounts the new one and all of the object is there. Once the last flush has
/// succeeded it mounts the new one.
pub proof fn law_crash_keeps_the_store_whole(
    disk: Disk,
    store: Store,
    bytes: Seq<u8>,
    plan: PutPlan,
    ops: Seq<DiskOp>,
    fates: Seq<Fate>,
)
    requires
        store.mounted.log_head_lba >= LBA_LOG_START,
        mounts(disk, store.mounted, store.mounted_slot),
        plan.stores(store, bytes),
        plan_prefix(plan, bytes, ops),
        tears_show(ops, fates),
    ensures
        ({
            let left = left_after(disk, ops, fates);
            &&& mounts(left, store.mounted, store.mounted_slot) || {
                &&& mounts(left, plan.new_sb, plan.new_slot)
                &&& plan.new_sb.root_len == bytes.len()
                &&& disk_bytes(left, plan.new_sb.root_lba, plan.new_sb.root_len as int) == bytes
                &&& plan.new_sb.root_hash == fnv(bytes)
            }
            &&& ops.len() <= plan.ndata + 2 ==> mounts(left, store.mounted, store.mounted_slot)
            &&& ops.len() == plan.op_count() ==> mounts(left, plan.new_sb, plan.new_slot)
        }),
{
    lemma_crash_on_disk(disk, store, bytes, plan, ops, fates);
    let left = left_after(disk, ops, fates);
    assert(left[store.mounted_slot] == disk[store.mounted_slot]);
    if ops.len() >= plan.ndata + 3 {
        lemma_data_is_object(left, bytes, plan);
        if is_superblock(left[plan.new_slot], plan.new_sb) {
            law_superblock_reads_back(left[plan.new_slot], plan.new_sb);
        }
    }
}

/// A crash while a disk is formatted does no harm: the disk can be formatted again, as both
/// slots are void, or it mounts the blank superblock. Once the flush has succeeded it mounts
/// that.
pub proof fn law_crash_while_formatting(disk: Disk, ops: Seq<DiskOp>, n: int, fates: Seq<Fate>)
    requires
        slot_of(disk[LBA_SB_A]) is Invalid,
        slot_of(disk[LBA_SB_B]) is Invalid,
        ops.len() == 2,
        ops[0].writes_superblock(LBA_SB_A, blank_superblock()),
        ops[1] is Flush,
        tears_show(ops, fates),
        0 <= n <= 2,
    ensures
        ({
            let left = left_after(disk, ops.take(n), fates);
            &&& mounts(left, blank_superblock(), LBA_SB_A) || {
                &&& slot_of(left[LBA_SB_A]) is Invalid
                &&& slot_of(left[LBA_SB_B]) is Invalid
            }
            &&& n == 2 ==> mounts(left, blank_superblock(), LBA_SB_A)
        }),
{
    reveal_with_fuel(left_after, 3);
    reveal_with_fuel(after_ops, 3);
    assert(tear_shows(ops[0], fates[0]));
    if n > 0 {
        let done = ops.take(n);
        assert(done.drop_last() =~= ops.take(n - 1));
        assert(ops.take(1)[0] == ops[0]);
        assert(ops.take(1).drop_last() =~= Seq::<DiskOp>::empty());
        match ops[0] {
            DiskOp::Write { lba, sector } => {
                law_superblock_reads_back(sector@, blank_superblock());
            },
            DiskOp::Flush => {},
        }
    }
}

/// As long as there is no crash, storing an object is all or nothing at every step: until
/// the commit the disk reads with the old superblock, and from then on with the new one.
pub proof fn law_put_is_atomic(
    disk: Disk,
    store: Store,
    bytes: Seq<u8>,
    plan: PutPlan,
    ops: Seq<DiskOp>,
)
    requires
        store.mounted.log_head_lba >= LBA_LOG_START,
        mounts(disk, store.mounted, store.mounted_slot),
        plan.stores(store, bytes),
        plan_prefix(plan, bytes, ops),
    ensures
        ops.len() <= plan.ndata + 2 ==> mounts(
            after_ops(disk, ops),
            store.mounted,
            store.mounted_slot,
        ),
        ops.len() >= plan.ndata + 3 ==> mounts(after_ops(disk, ops), plan.new_sb, plan.new_slot),
{
    lemma_plan_on_disk(disk, store, bytes, plan, ops);
    let after = after_ops(disk, ops);
    assert(after[store.mounted_slot] == disk[store.mounted_slot]);
    if ops.len() >= plan.ndata + 3 {
        law_superblock_reads_back(after[plan.new_slot], plan.new_sb);
    }
}

/// The run of a plan after operations with these outcomes. Once it has come to its end,
/// there are no more.
pub open spec fn run_after(plan: PutPlan, outcomes: Seq<bool>) -> PutRun
    decreases outcomes.len(),
{
    if outcomes.len() == 0 {
        PutRun::begun(plan)
    } else {
        let before = run_after(plan, outcomes.drop_last());
        if before.goes_on() {
            before.after(outcomes.last())
        } else {
            before
        }
    }
}

/// The first failure ends a run: as long as operations come out, all before have
/// succeeded, and they were the first ones of the plan.
pub proof fn law_failure_ends_the_run(plan: PutPlan, outcomes: Seq<bool>)
    requires
        plan.op_count() <= u64::MAX,
    ensures
        ({
            let run = run_after(plan, outcomes);
            &&& run.plan == plan
            &&& run.wf()
            &&& run.goes_on() ==> run.at == outcomes.len() && (forall|i: int|
                0 <= i < outcomes.len() ==> #[trigger] outcomes[i])
            &&& run.done() ==> plan.op_count() <= outcomes.len() && (forall|i: int|
                0 <= i < plan.op_count() ==> #[trigger] outcomes[i])
        }),
    decreases outcomes.len(),
{
    if outcomes.len() > 0 {
        let most = outcomes.drop_last();
        law_failure_ends_the_run(plan, most);
        let before = run_after(plan, most);
        let run = run_after(plan, outcomes);
        if before.goes_on() {
            assert forall|i: int| 0 <= i < outcomes.len() && outcomes.last() implies
                #[trigger] outcomes[i] by {
                if i < most.len() {
                    assert(most[i]);
                }
            }
        } else if before.done() {
            assert forall|i: int| 0 <= i < plan.op_count() implies #[trigger] outcomes[i] by {
                assert(most[i]);
            }
        }
    }
}

/// The commit comes last: of all operations that come out of a run, whatever fails, only
/// one writes a superblock slot. It writes the spare slot, never the live one, and it comes
/// out only after all data sectors, the header and a flush have succeeded.
pub proof fn law_commit_comes_last(
    store: Store,
    bytes: Seq<u8>,
    plan: PutPlan,
    outcomes: Seq<bool>,
    op: DiskOp,
)
    requires
        store.mounted.log_head_lba >= LBA_LOG_START,
        plan.stores(store, bytes),
        run_after(plan, outcomes).goes_on(),
        plan.op_is(bytes, run_after(plan, outcomes).at as int, op),
    ensures
        op matches DiskOp::Write { lba, sector } ==> (lba == LBA_SB_A || lba == LBA_SB_B) ==> {
            &&& lba == plan.new_slot
            &&& lba != store.mounted_slot
            &&& is_superblock(sector@, plan.new_sb)
            &&& outcomes.len() == plan.ndata + 2
            &&& forall|i: int| 0 <= i < outcomes.len() ==> #[trigger] outcomes[i]
        },
{
    law_failure_ends_the_run(plan, outcomes);
}

/// Writing a sector at or behind the head of the log, as a trial of the disk does, spares
/// the store: the disk mounts what it mounted before, and every extent in the log reads as
/// before.
pub proof fn law_trial_write_spares_the_store(
    disk: Disk,
    sb: Superblock,
    slot: u64,
    at: u64,
    sector: Seq<u8>,
    lba: u64,
    len: u32,
)
    requires
        mounts(disk, sb, slot),
        sb.log_head_lba >= LBA_LOG_START,
        at >= sb.log_head_lba,
        lba + sectors_for(len as int) <= sb.log_head_lba,
    ensures
        mounts(disk.insert(at, sector), sb, slot),
        disk_bytes(disk.insert(at, sector), lba, len as int) == disk_bytes(disk, lba, len as int),
{
    let now = disk_bytes(disk.insert(at, sector), lba, len as int);
    let was = disk_bytes(disk, lba, len as int);
    assert forall|j: int| 0 <= j < len implies now[j] == was[j] by {
        let l = (lba + j / 512) as u64;
        assert(l < sb.log_head_lba);
    }
    assert(now =~= was);
}

/// A commit that was torn does no harm: if a crash leaves the spare slot half written, so
/// that it is no valid superblock, the disk mounts the old one.
pub proof fn law_torn_commit_falls_back(
    disk: Disk,
    store: Store,
    bytes: Seq<u8>,
    plan: PutPlan,
    ops: Seq<DiskOp>,
    fates: Seq<Fate>,
)
    requires
        store.mounted.log_head_lba >= LBA_LOG_START,
        mounts(disk, store.mounted, store.mounted_slot),
        plan.stores(store, bytes),
        plan_prefix(plan, bytes, ops),
        tears_show(ops, fates),
        ops.len() == plan.ndata + 3,
        fates[plan.ndata + 2] is Torn,
    ensures
        mounts(left_after(disk, ops, fates), store.mounted, store.mounted_slot),
{
    lemma_crash_on_disk(disk, store, bytes, plan, ops, fates);
    assert(left_after(disk, ops, fates)[store.mounted_slot] == disk[store.mounted_slot]);
}

/// Objects are never overwritten: at every step of storing an object, and after a crash at
/// any of them, an extent that lies in the log below its head reads as before.
pub proof fn law_put_keeps_older_extents(
    disk: Disk,
    store: Store,
    bytes: Seq<u8>,
    plan: PutPlan,
    ops: Seq<DiskOp>,
    fates: Seq<Fate>,
    lba: u64,
    len: u32,
)
    requires
        store.mounted.log_head_lba >= LBA_LOG_START,
        plan.stores(store, bytes),
        plan_prefix(plan, bytes, ops),
        tears_show(ops, fates),
        lba >= LBA_LOG_START,
        lba + sectors_for(len as int) <= store.mounted.log_head_lba,
    ensures
        disk_bytes(after_ops(disk, ops), lba, len as int) == disk_bytes(disk, lba, len as int),
        disk_bytes(left_after(disk, ops, fates), lba, len as int) == disk_bytes(
            disk,
            lba,
            len as int,
        ),
{
    lemma_plan_on_disk(disk, store, bytes, plan, ops);
    lemma_crash_on_disk(disk, store, bytes, plan, ops, fates);
    lemma_same_sectors_same_bytes(disk, after_ops(disk, ops), store.mounted.log_head_lba, lba, len);
    lemma_same_sectors_same_bytes(
        disk,
        left_after(disk, ops, fates),
        store.mounted.log_head_lba,
        lba,
        len,
    );
}

/// Two disks that agree on the log below `head` agree on the extents there.
proof fn lemma_same_sectors_same_bytes(one: Disk, other: Disk, head: u64, lba: u64, len: u32)
    requires
        lba >= LBA_LOG_START,
        lba + sectors_for(len as int) <= head,
        forall|l: u64| LBA_LOG_START <= l < head ==> #[trigger] other[l] == one[l],
    ensures
        disk_bytes(other, lba, len as int) == disk_bytes(one, lba, len as int),
{
    let now = disk_bytes(other, lba, len as int);
    let was = disk_bytes(one, lba, len as int);
    assert forall|j: int| 0 <= j < len implies now[j] == was[j] by {
        let l = (lba + j / 512) as u64;
        assert(LBA_LOG_START <= l < head);
        assert(other[l] == one[l]);
    }
    assert(now =~= was);
}

/// An object survives a restart: once all operations have succeeded, the disk mounts,
/// whatever crash follows, a superblock that names the object, and the bytes there are the
/// object's and hash to what the superblock says.
pub proof fn law_stored_object_survives(
    disk: Disk,
    store: Store,
    bytes: Seq<u8>,
    plan: PutPlan,
    ops: Seq<DiskOp>,
    fates: Seq<Fate>,
)
    requires
        store.mounted.log_head_lba >= LBA_LOG_START,
        mounts(disk, store.mounted, store.mounted_slot),
        plan.stores(store, bytes),
        plan_prefix(plan, bytes, ops),
        ops.len() == plan.op_count(),
    ensures
        ({
            let left = left_after(disk, ops, fates);
            &&& mounts(left, plan.new_sb, plan.new_slot)
            &&& plan.new_sb.root_len == bytes.len()
            &&& disk_bytes(left, plan.new_sb.root_lba, plan.new_sb.root_len as int) == bytes
            &&& fnv(disk_bytes(left, plan.new_sb.root_lba, plan.new_sb.root_len as int))
                == plan.new_sb.root_hash
        }),
{
    assert(plan.op_is(bytes, ops.len() - 1, ops[ops.len() - 1]));
    assert(left_after(disk, ops, fates) == after_ops(disk, ops));
    law_put_is_atomic(disk, store, bytes, plan, ops);
    lemma_plan_on_disk(disk, store, bytes, plan, ops);
    lemma_data_is_object(after_ops(disk, ops), bytes, plan);
}

/// Only an intact object is recovered: with every sector read back from the disk, the
/// newest object is given if and only if its bytes there still hash to what the superblock
/// says.
pub proof fn law_recovered_object_is_intact(store: Store, disk: Disk, reader: ExtentReader)
    requires
        has_root(store),
        reader.lba == store.mounted.root_lba,
        reader.len == store.mounted.root_len,
        reader.complete(),
        reader.agrees(disk),
    ensures
        recovered(store, Some(reader.hash)) == if fnv(
            disk_bytes(disk, store.mounted.root_lba, store.mounted.root_len as int),
        ) == store.mounted.root_hash {
            Some((store.mounted.root_lba, store.mounted.root_len, store.mounted.root_hash))
        } else {
            None
        },
        recovered(store, None) is None,
{
}

/// What is recovered after a crash is the old object or the new one. Whenever the crash
/// strikes while an object is stored, and whatever becomes of the writes that were not
/// flushed, the store that is mounted from the disk recovers the place, length and hash that
/// storing the new object gives, or it is mounted as before and recovers the old object, if
/// that was intact. Once all operations have succeeded it is the new one.
pub proof fn law_stored_object_is_recovered(
    disk: Disk,
    store: Store,
    bytes: Seq<u8>,
    plan: PutPlan,
    ops: Seq<DiskOp>,
    fates: Seq<Fate>,
    restarted: Store,
    reader: ExtentReader,
)
    requires
        store.mounted_ok,
        log_sound(store.mounted),
        mounts(disk, store.mounted, store.mounted_slot),
        plan.stores(store, bytes),
        plan_prefix(plan, bytes, ops),
        tears_show(ops, fates),
        bytes.len() > 0,
        restarted.mounted_ok,
        mounts(left_after(disk, ops, fates), restarted.mounted, restarted.mounted_slot),
        reader.lba == restarted.mounted.root_lba,
        reader.len == restarted.mounted.root_len,
        reader.complete(),
        reader.agrees(left_after(disk, ops, fates)),
    ensures
        ({
            let got = recovered(restarted, Some(reader.hash));
            let was = store.mounted;
            let intact = was.root_len > 0 && fnv(
                disk_bytes(disk, was.root_lba, was.root_len as int),
            ) == was.root_hash;
            &&& got == Some((plan.data_lba, plan.len, plan.hash)) || {
                &&& restarted == store
                &&& intact ==> got == Some((was.root_lba, was.root_len, was.root_hash))
            }
            &&& ops.len() == plan.op_count() ==> got == Some((plan.data_lba, plan.len, plan.hash))
        }),
{
    let left = left_after(disk, ops, fates);
    law_crash_keeps_the_store_whole(disk, store, bytes, plan, ops, fates);
    if restarted.mounted.root_len > 0 {
        law_recovered_object_is_intact(restarted, left, reader);
    }
    if store.mounted.root_len > 0 {
        law_put_keeps_older_extents(
            disk,
            store,
            bytes,
            plan,
            ops,
            fates,
            store.mounted.root_lba,
            store.mounted.root_len,
        );
    }
}

/// The log stays sound: a formatted disk has a sound log, and storing an object in
/// a sound log leaves a sound log, with the object at a place that no object had
/// before and the sequence number one higher.
pub proof fn law_log_stays_sound(store: Store, bytes: Seq<u8>, plan: PutPlan)
    requires
        log_sound(store.mounted),
        plan.stores(store, bytes),
    ensures
        log_sound(blank_superblock()),
        log_sound(plan.new_sb),
        plan.new_sb.log_head_lba > store.mounted.log_head_lba,
        plan.new_sb.root_lba >= store.mounted.log_head_lba,
        plan.new_sb.seq == store.mounted.seq + 1,
        store.mounted.root_len > 0 ==> plan.new_sb.root_lba != store.mounted.root_lba,
{
}

/// The name of an object is its content: the same bytes have the same hash
/// wherever and whenever they are stored.
pub proof fn law_same_bytes_same_hash(
    one: Store,
    other: Store,
    bytes: Seq<u8>,
    plan_one: PutPlan,
    plan_other: PutPlan,
)
    requires
        plan_one.stores(one, bytes),
        plan_other.stores(other, bytes),
    ensures
        plan_one.hash == plan_other.hash,
        plan_one.new_sb.root_hash == plan_other.new_sb.root_hash,
{
}

/// Mounting never gives up a valid superblock: if a slot is valid, the one mounted
/// has a sequence number that no valid slot exceeds. And a disk is formatted only
/// if both slots were read and neither is valid.
pub proof fn law_mount_takes_the_newest(a: SlotRead, b: SlotRead)
    ensures
        (a is Valid || b is Valid) <==> newest(a, b) is Some,
        newest(a, b) matches Some((sb, slot)) ==> {
            &&& slot == LBA_SB_A ==> a == SlotRead::Valid(sb)
            &&& slot == LBA_SB_B ==> b == SlotRead::Valid(sb)
            &&& slot == LBA_SB_A || slot == LBA_SB_B
            &&& a matches SlotRead::Valid(x) ==> x.seq <= sb.seq
            &&& b matches SlotRead::Valid(y) ==> y.seq <= sb.seq
        },
{
}

/// One step of the hash loses nothing: multiplying what it gives by the inverse of the prime,
/// modulo a machine word, gives back the running hash with the byte, all eight bits of it,
/// mixed into its lowest eight bits.
pub proof fn law_hash_step_can_be_undone(h: u64, b: u8)
    ensures
        (fnv_byte(h, b) * 0xce96_5057_aff6_957b) % 0x1_0000_0000_0000_0000 == h ^ (b as u64),
        (h ^ (b as u64)) / 0x100 == h / 0x100,
{
    let x = (h ^ (b as u64)) as int;
    let m: int = 0x1_0000_0000_0000_0000;
    let q = x * 0x100_0000_01b3 / m;
    let r = x * 0x100_0000_01b3 % m;
    assert(r == fnv_byte(h, b));
    assert(r == x * 0x100_0000_01b3 - q * m);
    let t = x * 0xce_9650_590f - q * 0xce96_5057_aff6_957b;
    assert(r * 0xce96_5057_aff6_957b == m * t + x);
    vstd::arithmetic::div_mod::lemma_fundamental_div_mod_converse(
        r * 0xce96_5057_aff6_957b,
        m,
        t,
        x,
    );
    lemma_mix_byte(h, 0, b, 0);
}

/// Mixing in a byte changes only the lowest eight bits, tells bytes apart, and can be
/// undone.
proof fn lemma_mix_byte(g: u64, h: u64, a: u8, b: u8)
    by (bit_vector)
    ensures
        (g ^ (a as u64)) / 0x100 == g / 0x100,
        a != b ==> g ^ (a as u64) != g ^ (b as u64),
        g != h ==> g ^ (a as u64) != h ^ (a as u64),
{
}

/// The hash of no bytes is the offset basis, and each step of the hash takes in all of the
/// running hash and the whole byte: from two different running hashes, or with two different
/// bytes, it gives two different hashes.
pub proof fn law_hash_step_takes_in_everything(g: u64, h: u64, a: u8, b: u8)
    ensures
        fnv(Seq::<u8>::empty()) == 0xcbf2_9ce4_8422_2325,
        a != b ==> fnv_byte(h, a) != fnv_byte(h, b),
        g != h ==> fnv_byte(g, a) != fnv_byte(h, a),
{
    law_hash_step_can_be_undone(h, a);
    law_hash_step_can_be_undone(h, b);
    law_hash_step_can_be_undone(g, a);
    lemma_mix_byte(h, h, a, b);
    lemma_mix_byte(g, h, a, a);
}

/// From two different running hashes the same bytes lead to two different hashes.
proof fn lemma_hash_keeps_apart(g: u64, h: u64, data: Seq<u8>)
    requires
        g != h,
    ensures
        fnv_fold(g, data) != fnv_fold(h, data),
    decreases data.len(),
{
    if data.len() > 0 {
        lemma_hash_keeps_apart(g, h, data.drop_last());
        law_hash_step_takes_in_everything(
            fnv_fold(g, data.drop_last()),
            fnv_fold(h, data.drop_last()),
            data.last(),
            0,
        );
    }
}

/// Changing any single byte of an object, in whatever bit, changes its content hash.
pub proof fn law_one_byte_changes_the_hash(data: Seq<u8>, i: int, b: u8)
    requires
        0 <= i < data.len(),
        b != data[i],
    ensures
        fnv(data.update(i, b)) != fnv(data),
{
    let front = data.take(i);
    let back = data.skip(i + 1);
    let was = front.push(data[i]);
    let now = front.push(b);
    assert(was.drop_last() =~= front);
    assert(now.drop_last() =~= front);
    assert(data =~= was + back);
    assert(data.update(i, b) =~= now + back);
    law_hash_streams(FNV1A_BASIS, was, back);
    law_hash_streams(FNV1A_BASIS, now, back);
    law_hash_step_takes_in_everything(0, fnv_fold(FNV1A_BASIS, front), data[i], b);
    lemma_hash_keeps_apart(fnv(was), fnv(now), back);
}

/// An object of which a single byte has changed on the disk is not recovered.
pub proof fn law_damaged_object_is_not_recovered(
    store: Store,
    bytes: Seq<u8>,
    disk: Disk,
    i: int,
    reader: ExtentReader,
)
    requires
        has_root(store),
        store.mounted.root_len == bytes.len(),
        store.mounted.root_hash == fnv(bytes),
        0 <= i < bytes.len(),
        disk_bytes(disk, store.mounted.root_lba, store.mounted.root_len as int)[i] != bytes[i],
        forall|j: int|
            0 <= j < bytes.len() && j != i ==> #[trigger] disk_bytes(
                disk,
                store.mounted.root_lba,
                store.mounted.root_len as int,
            )[j] == bytes[j],
        reader.lba == store.mounted.root_lba,
        reader.len == store.mounted.root_len,
        reader.complete(),
        reader.agrees(disk),
    ensures
        recovered(store, Some(reader.hash)) is None,
{
    let now = disk_bytes(disk, store.mounted.root_lba, store.mounted.root_len as int);
    assert(now =~= bytes.update(i, now[i]));
    law_one_byte_changes_the_hash(bytes, i, now[i]);
    law_recovered_object_is_intact(store, disk, reader);
}

/// A number is the sum of its bytes, the lowest first: each byte counts 256 times as much
/// as the one before it. So two places that hold different bytes hold different numbers.
pub proof fn law_numbers_are_little_endian(s: Seq<u8>, t: Seq<u8>, o: int, k: int)
    requires
        0 <= k < 8,
        s[o + k] != t[o + k],
    ensures
        u64_at(s, o) == u32_at(s, o) + 0x1_0000_0000 * u32_at(s, o + 4),
        u32_at(s, o) == s[o] + 0x100 * (s[o + 1] + 0x100 * (s[o + 2] + 0x100 * s[o + 3])),
        u64_at(s, o) != u64_at(t, o),
{
    if u64_at(s, o) == u64_at(t, o) {
        lemma_low_bytes(s, t, o);
        assert(k == 0 || k == 1 || k == 2 || k == 3 || k == 4 || k == 5 || k == 6 || k == 7);
    }
}

/// The same number has the same bytes.
proof fn lemma_low_bytes(s: Seq<u8>, t: Seq<u8>, o: int)
    requires
        u64_at(s, o) == u64_at(t, o),
    ensures
        s[o] == t[o],
        s[o + 1] == t[o + 1],
        s[o + 2] == t[o + 2],
        s[o + 3] == t[o + 3],
        s[o + 4] == t[o + 4],
        s[o + 5] == t[o + 5],
        s[o + 6] == t[o + 6],
        s[o + 7] == t[o + 7],
{
    let a6 = s[o + 6] + 0x100 * s[o + 7];
    let a5 = s[o + 5] + 0x100 * a6;
    let a4 = s[o + 4] + 0x100 * a5;
    let a3 = s[o + 3] + 0x100 * a4;
    let a2 = s[o + 2] + 0x100 * a3;
    let a1 = s[o + 1] + 0x100 * a2;
    let b6 = t[o + 6] + 0x100 * t[o + 7];
    let b5 = t[o + 5] + 0x100 * b6;
    let b4 = t[o + 4] + 0x100 * b5;
    let b3 = t[o + 3] + 0x100 * b4;
    let b2 = t[o + 2] + 0x100 * b3;
    let b1 = t[o + 1] + 0x100 * b2;
    lemma_digit(s[o], a1, t[o], b1);
    lemma_digit(s[o + 1], a2, t[o + 1], b2);
    lemma_digit(s[o + 2], a3, t[o + 2], b3);
    lemma_digit(s[o + 3], a4, t[o + 3], b4);
    lemma_digit(s[o + 4], a5, t[o + 4], b5);
    lemma_digit(s[o + 5], a6, t[o + 5], b6);
    lemma_digit(s[o + 6], s[o + 7] as int, t[o + 6], t[o + 7] as int);
}

/// The lowest byte of a number, and the rest, are determined by the number.
proof fn lemma_digit(a: u8, x: int, b: u8, y: int)
    requires
        a + 0x100 * x == b + 0x100 * y,
    ensures
        a == b,
        x == y,
{
}

/// Where the fields of a superblock stand in its sector, and what makes a slot valid: the
/// mark, and behind the fields the hash of all bytes before it.
pub proof fn law_superblock_fields_have_their_places(s: Seq<u8>, sb: Superblock)
    ensures
        is_superblock(s, sb) ==> {
            &&& s.len() == 512
            &&& u64_at(s, 0) == 0x43_6169_726E_4C67
            &&& u32_at(s, 8) == 1
            &&& u64_at(s, 16) == sb.seq
            &&& u64_at(s, 24) == sb.log_head_lba
            &&& u64_at(s, 32) == sb.root_lba
            &&& u32_at(s, 40) == sb.root_len
            &&& u64_at(s, 48) == sb.root_hash
            &&& u64_at(s, 56) == fnv(s.take(56))
            &&& forall|j: int|
                (12 <= j < 16 || 44 <= j < 48 || 64 <= j < 512) ==> #[trigger] s[j] == 0
        },
        slot_of(s) is Valid <==> u64_at(s, 0) == 0x43_6169_726E_4C67 && u64_at(s, 56) == fnv(
            s.take(56),
        ),
        slot_of(s) is Valid || slot_of(s) is Invalid,
        slot_of(s) == SlotRead::Valid(sb) ==> {
            &&& sb.seq == u64_at(s, 16)
            &&& sb.log_head_lba == u64_at(s, 24)
            &&& sb.root_lba == u64_at(s, 32)
            &&& sb.root_len == u32_at(s, 40)
            &&& sb.root_hash == u64_at(s, 48)
        },
{
}

/// Damage to a superblock shows: if any single byte of its fields or of its hash changes, the
/// slot is not valid any more.
pub proof fn law_damaged_superblock_is_seen(s: Seq<u8>, i: int, b: u8)
    requires
        s.len() == 512,
        slot_of(s) is Valid,
        0 <= i < 64,
        b != s[i],
    ensures
        slot_of(s.update(i, b)) is Invalid,
{
    let t = s.update(i, b);
    if i < 56 {
        assert(t.take(56) =~= s.take(56).update(i, b));
        law_one_byte_changes_the_hash(s.take(56), i, b);
        assert(u64_at(t, 56) == u64_at(s, 56));
    } else {
        assert(t.take(56) =~= s.take(56));
        law_numbers_are_little_endian(s, t, 56, i - 56);
    }
}

/// An object is cut into as few sectors as it fits, and byte `j` of it stands in sector
/// `j / 512` at place `j % 512`. What is left of the last sector is zero.
pub proof fn law_object_is_cut_into_sectors(bytes: Seq<u8>, j: int)
    requires
        0 <= j,
    ensures
        bytes.len() <= sectors_for(bytes.len() as int) * 512 < bytes.len() + 512,
        data_sector(bytes, j / 512).len() == 512,
        j < bytes.len() ==> data_sector(bytes, j / 512)[j % 512] == bytes[j],
        j >= bytes.len() ==> data_sector(bytes, j / 512)[j % 512] == 0,
{
    assert(j / 512 * 512 + j % 512 == j);
}

/// Bytes on the disk are read in the order of the sectors: byte `j` of an extent is the one
/// at place `j % 512` of the sector `j / 512` further on.
pub proof fn law_extent_bytes_follow_the_sectors(disk: Disk, lba: u64, n: int, j: int)
    requires
        0 <= j < n,
        lba + n / 512 < u64::MAX,
    ensures
        disk_bytes(disk, lba, n).len() == n,
        disk_bytes(disk, lba, n)[j] == disk[(lba + j / 512) as u64][j % 512],
{
}

/// A stored object is described by a header: once all operations of a plan have succeeded,
/// the sector right behind the object's data, and right before the new head of the log, says
/// how long the object is, what it hashes to and where the object before it is, and its last
/// field is the hash of those before.
pub proof fn law_stored_object_has_a_header(
    disk: Disk,
    store: Store,
    bytes: Seq<u8>,
    plan: PutPlan,
    ops: Seq<DiskOp>,
)
    requires
        store.mounted.log_head_lba >= LBA_LOG_START,
        plan.stores(store, bytes),
        plan_prefix(plan, bytes, ops),
        ops.len() == plan.op_count(),
    ensures
        ({
            let at = store.mounted.log_head_lba + sectors_for(bytes.len() as int);
            let s = after_ops(disk, ops)[at as u64];
            &&& plan.new_sb.log_head_lba == at + 1
            &&& plan.new_sb.root_lba == store.mounted.log_head_lba
            &&& s.len() == 512
            &&& u64_at(s, 0) == 0x43_6169_726E_5265
            &&& u32_at(s, 8) == bytes.len()
            &&& u64_at(s, 16) == fnv(bytes)
            &&& u64_at(s, 24) == store.mounted.root_lba
            &&& u64_at(s, 32) == fnv(s.take(32))
            &&& forall|j: int| (12 <= j < 16 || 40 <= j < 512) ==> #[trigger] s[j] == 0
        }),
{
    let n = plan.ndata as int;
    let d0 = after_ops(disk, ops.take(n));
    assert(plan.op_is(bytes, n, ops[n]));
    assert(plan.op_is(bytes, n + 1, ops[n + 1]));
    assert(plan.op_is(bytes, n + 2, ops[n + 2]));
    assert(plan.op_is(bytes, n + 3, ops[n + 3]));
    assert(ops.take(n + 1).drop_last() =~= ops.take(n));
    assert(ops.take(n + 2).drop_last() =~= ops.take(n + 1));
    assert(ops.take(n + 3).drop_last() =~= ops.take(n + 2));
    assert(ops.drop_last() =~= ops.take(n + 3));
    let d1 = after_ops(disk, ops.take(n + 1));
    let d2 = after_ops(disk, ops.take(n + 2));
    let d3 = after_ops(disk, ops.take(n + 3));
    assert(d1 == after_op(d0, ops[n]));
    assert(d2 == after_op(d1, ops[n + 1]));
    assert(d3 == after_op(d2, ops[n + 2]));
    assert(after_ops(disk, ops) == after_op(d3, ops[n + 3]));
}

/// A disk that was formatted holds no object, its log starts behind the two superblock
/// slots, and its sequence numbers start at one.
pub proof fn law_formatted_store_is_empty()
    ensures
        blank_superblock() == (Superblock {
            seq: 1,
            log_head_lba: 2,
            root_lba: 0,
            root_len: 0,
            root_hash: 0,
        }),
        LBA_SB_A == 0,
        LBA_SB_B == 1,
        LBA_LOG_START == 2,
{
}

/// The hash takes the bytes one by one, from front to back, into the running hash.
pub proof fn law_hash_takes_the_bytes_in_turn(h: u64, data: Seq<u8>, b: u8)
    ensures
        fnv_fold(h, Seq::<u8>::empty()) == h,
        fnv_fold(h, data.push(b)) == fnv_byte(fnv_fold(h, data), b),
        fnv(data) == fnv_fold(0xcbf2_9ce4_8422_2325, data),
{
    assert(data.push(b).drop_last() =~= data);
}

/// Which superblock is taken: a valid one before one that is not, the higher sequence number
/// before the lower, and the first slot where both have the same. Without a valid one, none is.
pub proof fn law_which_superblock_is_taken(x: Superblock, y: Superblock, bad: SlotRead)
    requires
        !(bad is Valid),
    ensures
        newest(SlotRead::Valid(x), SlotRead::Valid(y)) == if y.seq > x.seq {
            Some((y, 1u64))
        } else {
            Some((x, 0u64))
        },
        newest(SlotRead::Valid(x), bad) == Some((x, 0u64)),
        newest(bad, SlotRead::Valid(y)) == Some((y, 1u64)),
        newest(bad, SlotRead::Io) is None,
        newest(bad, SlotRead::Invalid) is None,
{
}

/// When an object is recovered: if the store is mounted, names an object that is not empty, and
/// the bytes hash to what the superblock says. Then its place, length and hash come back.
pub proof fn law_when_an_object_is_recovered(store: Store, hash: Option<u64>)
    ensures
        has_root(store) <==> store.mounted_ok && store.mounted.root_len > 0,
        recovered(store, hash) is Some <==> store.mounted_ok && store.mounted.root_len > 0
            && hash is Some && hash->0 == store.mounted.root_hash,
        recovered(store, hash) matches Some((lba, len, h)) ==> lba == store.mounted.root_lba && len
            == store.mounted.root_len && h == store.mounted.root_hash,
{
}

/// A page that an extent is loaded to holds the bytes of the extent in order, each at its place,
/// and zeroes behind the last.
pub proof fn law_page_holds_the_extent(page: Seq<u8>, disk: Disk, lba: u64, n: int, j: int)
    requires
        0 <= n <= 4096,
        page_holds(page, disk, lba, n),
        0 <= j < 4096,
    ensures
        page.len() == 4096,
        j < n ==> page[j] == disk[(lba + j / 512) as u64][j % 512],
        j >= n ==> page[j] == 0,
{
    if j < n {
        assert(page.take(n)[j] == page[j]);
    }
}

/// How much of an extent its first sectors hold: all of each, until the extent ends.
pub proof fn law_sectors_hold_an_extent(n: int, len: u32)
    requires
        0 <= n,
    ensures
        bytes_in(0, len) == 0,
        n * 512 <= len ==> bytes_in(n, len) == n * 512,
        n * 512 > len ==> bytes_in(n, len) == len,
        n == sectors_for(len as int) ==> bytes_in(n, len) == len,
{
}

} // verus!
