//! The capability space: the objects, a capability table for each domain, and what
//! invoking a capability does.
//!
//! A domain names authority only by a slot of its own table. It gets a capability
//! by a delegation from the root domain or by a transfer over an endpoint, never by
//! naming another domain's slot. The contents of objects, such as the pending bits
//! of a notification or the partner that waits on an endpoint, are kept here beside
//! the object table.
//!
//! Where an invocation needs the hardware or the scheduler, it answers with what is
//! to be done.
use crate::capability::{CapEntry, ObjectKind, Rights};
use crate::memory::{allocate_frame, Memory};
use crate::objstore::{fnv1a, SECTOR_SIZE};
use crate::table::{
    CapTable, ObjectMeta, ObjectTable, Status, CAP_TABLE_SLOTS, OBJECT_TABLE_SIZE,
};
use vstd::prelude::*;

verus! {

/// Methods of a memory object.
pub const M_ALLOC: u16 = 1;

pub const M_FREE: u16 = 2;

/// Methods of a notification: raise bits, and take them.
pub const N_SIGNAL: u16 = 1;

pub const N_POLL: u16 = 2;

/// Methods of an endpoint.
pub const E_SEND: u16 = 1;

pub const E_RECV: u16 = 2;

/// Methods of a stored extent.
pub const X_READ: u16 = 1;

pub const X_WRITE: u16 = 2;

pub const X_COMMIT: u16 = 3;

pub const X_MAP: u16 = 4;

/// Methods of a device queue.
pub const DQ_INFO: u16 = 1;

pub const DQ_MAP: u16 = 2;

pub const DQ_REPORT: u16 = 3;

pub const DQ_SUBMIT: u16 = 4;

/// The method that admission to the run queue stands for.
pub const M_GRANT_TIME: u16 = 1;

/// Where the five pages of a device queue are mapped for its driver.
pub const DQ_BASE: u64 = 0x100_0000;

/// Where an extent is mapped.
pub const EXTENT_MAP_BASE: u64 = 0x110_0000;

/// Stands for "no capability".
pub const CPTR_NONE: u16 = 0xffff;

/// The number of domains. Domain 0 is the root.
pub const MAX_DOMAINS: usize = 6;

/// Who waits on an endpoint.
#[derive(Clone, Copy, Debug, PartialEq, Eq, Structural)]
pub enum EpState {
    Idle,
    SendWait,
    RecvWait,
}

/// An endpoint: at most one task waits on it, and a sender that waits has left its
/// message and the capability it hands over.
#[derive(Clone, Copy, Debug, PartialEq, Eq, Structural)]
pub struct EpSlot {
    pub state: EpState,
    pub peer_task: u16,
    pub peer_domain: u16,
    pub msg0: u64,
    pub xfer_cptr: u16,
}

/// Where an extent is on the disk, its content hash, and the frame that it was
/// loaded to, or 0.
#[derive(Clone, Copy, Debug, PartialEq, Eq, Structural)]
pub struct ExtentMeta {
    pub lba: u64,
    pub len: u32,
    pub hash: u64,
    pub data_frame_phys: u64,
}

/// The physical addresses and the size of a virtqueue.
#[derive(Clone, Copy, Debug, PartialEq, Eq, Structural)]
pub struct DeviceQueueDesc {
    pub desc_phys: u64,
    pub avail_phys: u64,
    pub used_phys: u64,
    pub buf_phys: u64,
    pub doorbell_phys: u64,
    pub qsize: u16,
}

/// A device queue, and what its driver is expected to read from `scratch_lba`.
#[derive(Clone, Copy, Debug, PartialEq, Eq, Structural)]
pub struct DqMeta {
    pub queue: DeviceQueueDesc,
    pub magic: u64,
    pub scratch_lba: u64,
}

/// One page to map for a domain.
#[derive(Clone, Copy, Debug, PartialEq, Eq, Structural)]
pub struct PageMap {
    pub va: u64,
    pub phys: u64,
    pub writable: bool,
    pub executable: bool,
    pub no_cache: bool,
}

/// Pages to map for a domain, in order, up to the first failure.
#[derive(Clone, Copy, Debug, PartialEq, Eq, Structural)]
pub enum MapPlan {
    Queue(DeviceQueueDesc),
    Extent(u64),
}

/// What an invocation comes to.
#[derive(Clone, Copy, Debug, PartialEq, Eq, Structural)]
pub enum Invoked {
    /// The answer.
    Done(Status, u64),
    /// The pages are to be mapped; `map_finish` then has the answer.
    MapPages(MapPlan),
    /// The sector is to be read; `submit_finish` then has the answer.
    ReadBlock(u64),
}

/// The result that a waiting task is woken with.
#[derive(Clone, Copy, Debug, PartialEq, Eq, Structural)]
pub struct Wake {
    pub task: u16,
    pub status: Status,
    pub reply: u64,
    pub cptr: u16,
}

/// What an invocation with a possible transfer comes to.
#[derive(Clone, Copy, Debug, PartialEq, Eq, Structural)]
pub enum IpcOutcome {
    /// The answer: status, reply and received capability.
    Done(Status, u64, u16),
    /// The answer, and the partner to wake first.
    Handoff(Status, u64, u16, Wake),
    /// The caller is to be blocked; its answer is what it is woken with.
    ParkSend(u16),
    ParkRecv(u16),
    /// As for `Invoked`.
    MapPages(MapPlan),
    ReadBlock(u64),
}

/// The capability space.
pub struct CapSpace {
    pub objects: ObjectTable,
    pub domains: [CapTable; MAX_DOMAINS],
    pub notify: [u64; OBJECT_TABLE_SIZE],
    pub endpoints: [EpSlot; OBJECT_TABLE_SIZE],
    pub extents: [ExtentMeta; OBJECT_TABLE_SIZE],
    pub devqueues: [DqMeta; OBJECT_TABLE_SIZE],
    /// The addresses of the pages that were mapped for each domain.
    pub maps: [Vec<u64>; MAX_DOMAINS],
    /// The domain of the running task.
    pub current: u16,
}

/// The capability space as plain sequences.
#[verifier::ext_equal]
pub struct SpaceView {
    pub objects: Seq<ObjectMeta>,
    pub domains: Seq<Seq<Option<CapEntry>>>,
    pub notify: Seq<u64>,
    pub endpoints: Seq<EpSlot>,
    pub extents: Seq<ExtentMeta>,
    pub devqueues: Seq<DqMeta>,
    pub maps: Seq<Seq<u64>>,
    pub current: u16,
}

impl View for CapSpace {
    type V = SpaceView;

    open spec fn view(&self) -> SpaceView {
        SpaceView {
            objects: self.objects@,
            domains: Seq::new(MAX_DOMAINS as nat, |d: int| self.domains@[d]@),
            notify: self.notify@,
            endpoints: self.endpoints@,
            extents: self.extents@,
            devqueues: self.devqueues@,
            maps: Seq::new(MAX_DOMAINS as nat, |d: int| self.maps@[d]@),
            current: self.current,
        }
    }
}

/// An endpoint that nobody waits on.
pub open spec fn ep_empty() -> EpSlot {
    EpSlot { state: EpState::Idle, peer_task: 0, peer_domain: 0, msg0: 0, xfer_cptr: 0 }
}

/// No extent.
pub open spec fn ext_empty() -> ExtentMeta {
    ExtentMeta { lba: 0, len: 0, hash: 0, data_frame_phys: 0 }
}

/// No device queue.
pub open spec fn dq_empty() -> DqMeta {
    DqMeta {
        queue: DeviceQueueDesc {
            desc_phys: 0,
            avail_phys: 0,
            used_phys: 0,
            buf_phys: 0,
            doorbell_phys: 0,
            qsize: 0,
        },
        magic: 0,
        scratch_lba: 0,
    }
}

fn empty_endpoint() -> (r: EpSlot)
    ensures
        r == ep_empty(),
{
    EpSlot { state: EpState::Idle, peer_task: 0, peer_domain: 0, msg0: 0, xfer_cptr: 0 }
}

impl CapSpace {
    /// A space without objects and capabilities, with the root domain running.
    pub fn new() -> (r: CapSpace)
        ensures
            forall|i: int|
                0 <= i < OBJECT_TABLE_SIZE ==> #[trigger] r@.objects[i] == (ObjectMeta {
                    kind: ObjectKind { tag: ObjectKind::NULL },
                    current_epoch: 0,
                    present: false,
                }),
            forall|d: int, i: int|
                0 <= d < MAX_DOMAINS && 0 <= i < CAP_TABLE_SLOTS ==> (
                #[trigger] r@.domains[d][i]) is None,
            forall|i: int| 0 <= i < OBJECT_TABLE_SIZE ==> #[trigger] r@.notify[i] == 0,
            forall|i: int|
                0 <= i < OBJECT_TABLE_SIZE ==> #[trigger] r@.endpoints[i] == ep_empty(),
            forall|i: int|
                0 <= i < OBJECT_TABLE_SIZE ==> #[trigger] r@.extents[i] == ext_empty(),
            forall|i: int|
                0 <= i < OBJECT_TABLE_SIZE ==> #[trigger] r@.devqueues[i] == dq_empty(),
            forall|d: int| 0 <= d < MAX_DOMAINS ==> (#[trigger] r@.maps[d]).len() == 0,
            r@.current == 0,
    {
        CapSpace {
            objects: ObjectTable::new(),
            domains: [
                CapTable::new(),
                CapTable::new(),
                CapTable::new(),
                CapTable::new(),
                CapTable::new(),
                CapTable::new(),
            ],
            notify: [0; OBJECT_TABLE_SIZE],
            endpoints: [empty_endpoint(); OBJECT_TABLE_SIZE],
            extents: [ExtentMeta { lba: 0, len: 0, hash: 0, data_frame_phys: 0 };
                OBJECT_TABLE_SIZE],
            devqueues: [DqMeta {
                queue: DeviceQueueDesc {
                    desc_phys: 0,
                    avail_phys: 0,
                    used_phys: 0,
                    buf_phys: 0,
                    doorbell_phys: 0,
                    qsize: 0,
                },
                magic: 0,
                scratch_lba: 0,
            }; OBJECT_TABLE_SIZE],
            maps: [Vec::new(), Vec::new(), Vec::new(), Vec::new(), Vec::new(), Vec::new()],
            current: 0,
        }
    }
}

/// Records the domain of the task that is about to run.
pub fn set_current_domain(cs: &mut CapSpace, domain: u16)
    ensures
        final(cs)@ == (SpaceView { current: domain, ..old(cs)@ }),
{
    cs.current = domain;
}

/// The domain that a number names. A number out of range counts as the last domain.
pub open spec fn domain_index(domain: int) -> int {
    if domain < MAX_DOMAINS {
        domain
    } else {
        MAX_DOMAINS - 1
    }
}

/// The domain of the running task.
pub fn current_domain(cs: &CapSpace) -> (r: usize)
    ensures
        r == domain_index(cs@.current as int),
        r < MAX_DOMAINS,
{
    let d: usize = cs.current as usize;
    if d < MAX_DOMAINS {
        d
    } else {
        MAX_DOMAINS - 1
    }
}

/// The space after an entry was written to a slot of a domain.
pub open spec fn with_slot(v: SpaceView, domain: int, slot: int, e: Option<CapEntry>) -> SpaceView {
    SpaceView { domains: v.domains.update(domain, v.domains[domain].update(slot, e)), ..v }
}

/// Why `src_cptr` of domain `src` may not be moved to domain `dst`, or `Success`.
pub open spec fn transfer_status(v: SpaceView, src: int, src_cptr: u16, dst: int) -> Status {
    if src == dst || src >= MAX_DOMAINS || dst >= MAX_DOMAINS {
        Status::ErrBadCPtr
    } else if crate::table::delegate_status(v.domains[src], v.objects, src_cptr)
        != Status::Success {
        crate::table::delegate_status(v.domains[src], v.objects, src_cptr)
    } else if crate::table::slots_taken_below(v.domains[dst], CAP_TABLE_SLOTS as int) {
        Status::ErrBadCPtr
    } else {
        Status::Success
    }
}

/// The capability at `src_cptr` of domain `src` was moved to `dst_cptr`, the lowest
/// free slot of domain `dst`.
pub open spec fn moved(
    v: SpaceView,
    after: SpaceView,
    src: int,
    src_cptr: u16,
    dst: int,
    dst_cptr: u16,
) -> bool {
    &&& crate::table::is_lowest_free(v.domains[dst], dst_cptr as int)
    &&& after == with_slot(
        with_slot(
            v,
            dst,
            dst_cptr as int,
            Some(
                crate::table::delegated(
                    v.domains[src][src_cptr as int]->0,
                    Rights { bits: Rights::KNOWN },
                    0,
                ),
            ),
        ),
        src,
        src_cptr as int,
        None,
    )
}

/// Moves a capability from one domain to another: a delegation of all of its rights,
/// after which the source slot is cleared. If it fails nothing changes.
fn do_cap_transfer(cs: &mut CapSpace, src_dom: usize, src_cptr: u16, dst_dom: usize) -> (r: Result<
    u16,
    Status,
>)
    ensures
        match r {
            Ok(dst_cptr) => {
                &&& transfer_status(old(cs)@, src_dom as int, src_cptr, dst_dom as int)
                    == Status::Success
                &&& moved(
                    old(cs)@,
                    final(cs)@,
                    src_dom as int,
                    src_cptr,
                    dst_dom as int,
                    dst_cptr,
                )
            },
            Err(status) => {
                &&& status != Status::Success
                &&& status == transfer_status(
                    old(cs)@,
                    src_dom as int,
                    src_cptr,
                    dst_dom as int,
                )
                &&& final(cs)@ == old(cs)@
            },
        },
{
    if src_dom == dst_dom || src_dom >= MAX_DOMAINS || dst_dom >= MAX_DOMAINS {
        return Err(Status::ErrBadCPtr);
    }
    let child = match cs.domains[src_dom].derive(&cs.objects, src_cptr, Rights::all(), 0) {
        Ok(e) => e,
        Err(status) => {
            return Err(status);
        },
    };
    match cs.domains[dst_dom].insert(child) {
        Ok(dst_cptr) => {
            cs.domains[src_dom].slots[src_cptr as usize] = None;
            assert(cs@ =~= with_slot(
                with_slot(old(cs)@, dst_dom as int, dst_cptr as int, Some(child)),
                src_dom as int,
                src_cptr as int,
                None,
            ));
            Ok(dst_cptr)
        },
        Err(status) => {
            assert(cs@ =~= old(cs)@);
            Err(status)
        },
    }
}

/// The entry that an invocation of `cptr` by `domain` works on, or why there is none.
pub open spec fn resolve_status(v: SpaceView, domain: int, cptr: u16) -> Status {
    crate::table::invoke_status(
        v.domains[domain],
        v.objects,
        cptr,
        Rights::of(Rights::INVOKE),
    )
}

/// Validates a capability of a domain for an invocation and gives its entry.
fn resolve(cs: &CapSpace, domain: usize, cptr: u16, method: u16) -> (r: Result<CapEntry, Status>)
    requires
        domain < MAX_DOMAINS,
    ensures
        match r {
            Ok(e) => {
                &&& resolve_status(cs@, domain as int, cptr) == Status::Success
                &&& cs@.domains[domain as int][cptr as int] == Some(e)
            },
            Err(status) => status != Status::Success && status == resolve_status(
                cs@,
                domain as int,
                cptr,
            ),
        },
{
    let invoke = Rights::from_bits_truncate(Rights::INVOKE);
    let status = cs.domains[domain].invoke(&cs.objects, cptr, method, invoke);
    if status != Status::Success {
        return Err(status);
    }
    cs.domains[domain].lookup(cptr, &cs.objects)
}

/// The right that a method asks for besides the right to invoke.
pub open spec fn method_right(kind: ObjectKind, method: u16) -> u16 {
    if kind.tag == ObjectKind::NOTIFICATION && method == N_SIGNAL {
        Rights::WRITE
    } else if kind.tag == ObjectKind::NOTIFICATION && method == N_POLL {
        Rights::READ
    } else if kind.tag == ObjectKind::EXTENT && method == X_READ {
        Rights::READ
    } else if kind.tag == ObjectKind::EXTENT && (method == X_WRITE || method == X_COMMIT) {
        Rights::WRITE
    } else if kind.tag == ObjectKind::EXTENT && method == X_MAP {
        Rights::MAP
    } else if kind.tag == ObjectKind::DEVICE_QUEUE && method == DQ_INFO {
        Rights::READ
    } else if kind.tag == ObjectKind::DEVICE_QUEUE && method == DQ_MAP {
        Rights::MAP
    } else if kind.tag == ObjectKind::DEVICE_QUEUE && (method == DQ_REPORT || method
        == DQ_SUBMIT) {
        Rights::WRITE
    } else {
        0
    }
}

/// The right that a method asks for besides the right to invoke.
fn extra_right(kind: ObjectKind, method: u16) -> (r: Rights)
    ensures
        r == Rights::of(method_right(kind, method)),
{
    let tag: u16 = kind.raw();
    let bits: u16 = if tag == ObjectKind::NOTIFICATION && method == N_SIGNAL {
        Rights::WRITE
    } else if tag == ObjectKind::NOTIFICATION && method == N_POLL {
        Rights::READ
    } else if tag == ObjectKind::EXTENT && method == X_READ {
        Rights::READ
    } else if tag == ObjectKind::EXTENT && (method == X_WRITE || method == X_COMMIT) {
        Rights::WRITE
    } else if tag == ObjectKind::EXTENT && method == X_MAP {
        Rights::MAP
    } else if tag == ObjectKind::DEVICE_QUEUE && method == DQ_INFO {
        Rights::READ
    } else if tag == ObjectKind::DEVICE_QUEUE && method == DQ_MAP {
        Rights::MAP
    } else if tag == ObjectKind::DEVICE_QUEUE && (method == DQ_REPORT || method == DQ_SUBMIT) {
        Rights::WRITE
    } else {
        0
    };
    Rights::from_bits_truncate(bits)
}

/// What a method on an object does and answers, once the right to invoke it was
/// checked. `v` and `mem` are the space and the memory before, `v2` and `mem2` after.
pub open spec fn dispatched(
    v: SpaceView,
    mem: Memory,
    v2: SpaceView,
    mem2: Memory,
    e: CapEntry,
    method: u16,
    arg: u64,
    r: Invoked,
) -> bool {
    let tag = e.type_tag.tag;
    let i = e.object_id as int;
    if !e.rights.includes(Rights::of(method_right(e.type_tag, method))) {
        r == Invoked::Done(Status::ErrRights, 0) && v2 == v && mem2 == mem
    } else if tag == ObjectKind::MEMORY && method == M_ALLOC {
        &&& v2 == v
        &&& mem2.hhdm_offset == mem.hhdm_offset
        &&& if mem.frames() == Set::<int>::empty() {
            r == Invoked::Done(Status::ErrRights, 0) && mem2 == mem
        } else {
            r matches Invoked::Done(status, frame) && status == Status::Success
                && crate::memory::takes_lowest(mem.frames(), frame as int, mem2.frames())
        }
    } else {
        &&& mem2 == mem
        &&& if tag == ObjectKind::NOTIFICATION && method == N_SIGNAL {
            &&& r == Invoked::Done(Status::Success, 0)
            &&& v2 == (SpaceView { notify: v.notify.update(i, v.notify[i] | arg), ..v })
        } else if tag == ObjectKind::NOTIFICATION && method == N_POLL {
            &&& r == Invoked::Done(Status::Success, v.notify[i])
            &&& v2 == (SpaceView { notify: v.notify.update(i, 0), ..v })
        } else {
            &&& v2 == v
            &&& r == if tag == ObjectKind::EXTENT && method == X_READ {
                Invoked::Done(Status::Success, v.extents[i].hash)
            } else if tag == ObjectKind::EXTENT && method == X_MAP {
                if v.extents[i].data_frame_phys == 0 {
                    Invoked::Done(Status::ErrMethod, 0)
                } else {
                    Invoked::MapPages(MapPlan::Extent(v.extents[i].data_frame_phys))
                }
            } else if tag == ObjectKind::DEVICE_QUEUE && method == DQ_INFO {
                Invoked::Done(Status::Success, v.devqueues[i].queue.qsize as u64)
            } else if tag == ObjectKind::DEVICE_QUEUE && method == DQ_MAP {
                if v.devqueues[i].queue.buf_phys == 0 {
                    Invoked::Done(Status::ErrMethod, 0)
                } else {
                    Invoked::MapPages(MapPlan::Queue(v.devqueues[i].queue))
                }
            } else if tag == ObjectKind::DEVICE_QUEUE && method == DQ_REPORT {
                Invoked::Done(
                    Status::Success,
                    if arg == v.devqueues[i].magic {
                        1
                    } else {
                        0
                    },
                )
            } else if tag == ObjectKind::DEVICE_QUEUE && method == DQ_SUBMIT {
                Invoked::ReadBlock(arg)
            } else {
                Invoked::Done(Status::ErrMethod, 0)
            }
        }
    }
}

/// Runs a method on an object. A frame is never taken back from a caller: its
/// number proves nothing about who owns it, so `M_FREE` is refused. Writing an
/// extent is refused too, as the bytes cannot come through a register.
fn dispatch_method(
    cs: &mut CapSpace,
    mem: &mut Memory,
    e: CapEntry,
    method: u16,
    arg: u64,
) -> (r: Invoked)
    requires
        old(mem).wf(),
        e.object_id < OBJECT_TABLE_SIZE,
    ensures
        final(mem).wf(),
        dispatched(old(cs)@, *old(mem), final(cs)@, *final(mem), e, method, arg, r),
{
    if !e.rights.contains(extra_right(e.type_tag, method)) {
        return Invoked::Done(Status::ErrRights, 0);
    }
    let i: usize = e.object_id as usize;
    let tag: u16 = e.type_tag.raw();
    if tag == ObjectKind::MEMORY && method == M_ALLOC {
        match allocate_frame(mem) {
            Some(frame) => {
                assert(old(mem).frames().contains(frame as int));
                Invoked::Done(Status::Success, frame)
            },
            None => Invoked::Done(Status::ErrRights, 0),
        }
    } else if tag == ObjectKind::NOTIFICATION && method == N_SIGNAL {
        notify_signal(cs, i, arg);
        Invoked::Done(Status::Success, 0)
    } else if tag == ObjectKind::NOTIFICATION && method == N_POLL {
        let bits: u64 = notify_take(cs, i);
        Invoked::Done(Status::Success, bits)
    } else if tag == ObjectKind::EXTENT && method == X_READ {
        Invoked::Done(Status::Success, cs.extents[i].hash)
    } else if tag == ObjectKind::EXTENT && method == X_MAP {
        extent_map(cs, i)
    } else if tag == ObjectKind::DEVICE_QUEUE && method == DQ_INFO {
        Invoked::Done(Status::Success, cs.devqueues[i].queue.qsize as u64)
    } else if tag == ObjectKind::DEVICE_QUEUE && method == DQ_MAP {
        devqueue_map(cs, i)
    } else if tag == ObjectKind::DEVICE_QUEUE && method == DQ_REPORT {
        devqueue_report(cs, i, arg)
    } else if tag == ObjectKind::DEVICE_QUEUE && method == DQ_SUBMIT {
        Invoked::ReadBlock(arg)
    } else {
        Invoked::Done(Status::ErrMethod, 0)
    }
}

/// Raises bits of a notification.
fn notify_signal(cs: &mut CapSpace, i: usize, bits: u64)
    requires
        i < OBJECT_TABLE_SIZE,
    ensures
        final(cs)@ == (SpaceView {
            notify: old(cs)@.notify.update(i as int, old(cs)@.notify[i as int] | bits),
            ..old(cs)@
        }),
{
    cs.notify[i] = cs.notify[i] | bits;
}

/// Takes the bits of a notification and clears them.
fn notify_take(cs: &mut CapSpace, i: usize) -> (r: u64)
    requires
        i < OBJECT_TABLE_SIZE,
    ensures
        r == old(cs)@.notify[i as int],
        final(cs)@ == (SpaceView { notify: old(cs)@.notify.update(i as int, 0), ..old(cs)@ }),
{
    let v: u64 = cs.notify[i];
    cs.notify[i] = 0;
    v
}

/// Asks for an extent to be mapped, if it was loaded to a frame.
fn extent_map(cs: &CapSpace, i: usize) -> (r: Invoked)
    requires
        i < OBJECT_TABLE_SIZE,
    ensures
        r == if cs@.extents[i as int].data_frame_phys == 0 {
            Invoked::Done(Status::ErrMethod, 0)
        } else {
            Invoked::MapPages(MapPlan::Extent(cs@.extents[i as int].data_frame_phys))
        },
{
    let phys: u64 = cs.extents[i].data_frame_phys;
    if phys == 0 {
        return Invoked::Done(Status::ErrMethod, 0);
    }
    Invoked::MapPages(MapPlan::Extent(phys))
}

/// Asks for a device queue to be mapped, if it was set up.
fn devqueue_map(cs: &CapSpace, i: usize) -> (r: Invoked)
    requires
        i < OBJECT_TABLE_SIZE,
    ensures
        r == if cs@.devqueues[i as int].queue.buf_phys == 0 {
            Invoked::Done(Status::ErrMethod, 0)
        } else {
            Invoked::MapPages(MapPlan::Queue(cs@.devqueues[i as int].queue))
        },
{
    let m = cs.devqueues[i];
    if m.queue.buf_phys == 0 {
        return Invoked::Done(Status::ErrMethod, 0);
    }
    Invoked::MapPages(MapPlan::Queue(m.queue))
}

/// Compares what a driver read with what it was expected to read.
fn devqueue_report(cs: &CapSpace, i: usize, reported: u64) -> (r: Invoked)
    requires
        i < OBJECT_TABLE_SIZE,
    ensures
        r == Invoked::Done(
            Status::Success,
            if reported == cs@.devqueues[i as int].magic {
                1
            } else {
                0
            },
        ),
{
    let matched = reported == cs.devqueues[i].magic;
    Invoked::Done(
        Status::Success,
        if matched {
            1
        } else {
            0
        },
    )
}

/// Where a plan's pages start.
pub open spec fn plan_base(plan: MapPlan) -> u64 {
    match plan {
        MapPlan::Queue(_) => DQ_BASE,
        MapPlan::Extent(_) => EXTENT_MAP_BASE,
    }
}

/// The pages of a plan. The rings, the buffer and the doorbell of a queue follow
/// each other; the ring that the device writes is read-only, and only the doorbell
/// is not cached. An extent is one read-only page. No page is executable.
pub open spec fn plan_pages(plan: MapPlan) -> Seq<PageMap> {
    match plan {
        MapPlan::Queue(q) => seq![
            PageMap {
                va: DQ_BASE,
                phys: q.desc_phys,
                writable: true,
                executable: false,
                no_cache: false,
            },
            PageMap {
                va: (DQ_BASE + 0x1000) as u64,
                phys: q.avail_phys,
                writable: true,
                executable: false,
                no_cache: false,
            },
            PageMap {
                va: (DQ_BASE + 0x2000) as u64,
                phys: q.used_phys,
                writable: false,
                executable: false,
                no_cache: false,
            },
            PageMap {
                va: (DQ_BASE + 0x3000) as u64,
                phys: q.buf_phys,
                writable: true,
                executable: false,
                no_cache: false,
            },
            PageMap {
                va: (DQ_BASE + 0x4000) as u64,
                phys: q.doorbell_phys,
                writable: true,
                executable: false,
                no_cache: true,
            },
        ],
        MapPlan::Extent(phys) => seq![
            PageMap {
                va: EXTENT_MAP_BASE,
                phys,
                writable: false,
                executable: false,
                no_cache: false,
            },
        ],
    }
}

impl MapPlan {
    /// The pages to map, in order.
    pub fn pages(&self) -> (r: Vec<PageMap>)
        ensures
            r@ == plan_pages(*self),
    {
        let mut v: Vec<PageMap> = Vec::new();
        match self {
            MapPlan::Queue(q) => {
                v.push(page(DQ_BASE, q.desc_phys, true, false));
                v.push(page(DQ_BASE + 0x1000, q.avail_phys, true, false));
                v.push(page(DQ_BASE + 0x2000, q.used_phys, false, false));
                v.push(page(DQ_BASE + 0x3000, q.buf_phys, true, false));
                v.push(page(DQ_BASE + 0x4000, q.doorbell_phys, true, true));
            },
            MapPlan::Extent(phys) => {
                v.push(page(EXTENT_MAP_BASE, *phys, false, false));
            },
        }
        assert(v@ =~= plan_pages(*self));
        v
    }
}

/// A data page.
fn page(va: u64, phys: u64, writable: bool, no_cache: bool) -> (r: PageMap)
    ensures
        r == (PageMap { va, phys, writable, executable: false, no_cache }),
{
    PageMap { va, phys, writable, executable: false, no_cache }
}

/// The addresses of the first `n` pages of a plan.
pub open spec fn plan_vas(plan: MapPlan, n: int) -> Seq<u64> {
    Seq::new(n as nat, |i: int| plan_pages(plan)[i].va)
}

/// Takes the outcome of mapping a plan for a domain: the first `mapped` pages were
/// mapped. They are written down under the domain, and the answer is where they
/// start, or `ErrMethod` if not all were mapped.
pub fn map_finish(cs: &mut CapSpace, domain: usize, plan: MapPlan, mapped: usize) -> (r: (
    Status,
    u64,
))
    requires
        mapped <= plan_pages(plan).len(),
    ensures
        r == if mapped == plan_pages(plan).len() {
            (Status::Success, plan_base(plan))
        } else {
            (Status::ErrMethod, 0)
        },
        final(cs)@ == (SpaceView {
            maps: old(cs)@.maps.update(
                domain_index(domain as int),
                old(cs)@.maps[domain_index(domain as int)] + plan_vas(plan, mapped as int),
            ),
            ..old(cs)@
        }),
{
    let d: usize = if domain < MAX_DOMAINS {
        domain
    } else {
        MAX_DOMAINS - 1
    };
    let pages = plan.pages();
    let mut i: usize = 0;
    let ghost first = cs.maps@[d as int]@;
    while i < mapped
        invariant
            i <= mapped <= pages@.len(),
            d < MAX_DOMAINS,
            pages@ == plan_pages(plan),
            cs.maps@[d as int]@ == first + plan_vas(plan, i as int),
            forall|k: int|
                0 <= k < MAX_DOMAINS && k != d ==> #[trigger] cs.maps@[k] == old(cs).maps@[k],
            cs.objects == old(cs).objects,
            cs.domains == old(cs).domains,
            cs.notify == old(cs).notify,
            cs.endpoints == old(cs).endpoints,
            cs.extents == old(cs).extents,
            cs.devqueues == old(cs).devqueues,
            cs.current == old(cs).current,
        decreases mapped - i,
    {
        cs.maps[d].push(pages[i].va);
        i = i + 1;
        assert(cs.maps@[d as int]@ =~= first + plan_vas(plan, i as int));
    }
    assert(cs@ =~= (SpaceView {
        maps: old(cs)@.maps.update(d as int, first + plan_vas(plan, mapped as int)),
        ..old(cs)@
    }));
    if mapped == pages.len() {
        (
            Status::Success,
            match plan {
                MapPlan::Queue(_) => DQ_BASE,
                MapPlan::Extent(_) => EXTENT_MAP_BASE,
            },
        )
    } else {
        (Status::ErrMethod, 0)
    }
}

/// Takes the outcome of reading the sector that a submission asked for: the answer
/// is the content hash, or `ErrMethod` if the sector could not be read. The bytes
/// stay with the kernel.
pub fn submit_finish(read: Option<[u8; SECTOR_SIZE]>) -> (r: (Status, u64))
    ensures
        r == match read {
            Some(s) => (Status::Success, crate::objstore::fnv(s@)),
            None => (Status::ErrMethod, 0),
        },
{
    match read {
        Some(s) => (Status::Success, fnv1a(s.as_slice())),
        None => (Status::ErrMethod, 0),
    }
}

/// What invoking `cptr` in the table of `domain` does and answers.
pub open spec fn invoked_in(
    v: SpaceView,
    mem: Memory,
    v2: SpaceView,
    mem2: Memory,
    domain: int,
    cptr: u16,
    method: u16,
    arg: u64,
    r: Invoked,
) -> bool {
    let status = resolve_status(v, domain, cptr);
    if status != Status::Success {
        r == Invoked::Done(status, 0) && v2 == v && mem2 == mem
    } else {
        dispatched(v, mem, v2, mem2, v.domains[domain][cptr as int]->0, method, arg, r)
    }
}

/// Invokes a method on a capability of a domain.
pub fn cap_invoke_in(
    cs: &mut CapSpace,
    mem: &mut Memory,
    domain: usize,
    cptr: u16,
    method: u16,
    arg: u64,
) -> (r: Invoked)
    requires
        old(mem).wf(),
    ensures
        final(mem).wf(),
        invoked_in(
            old(cs)@,
            *old(mem),
            final(cs)@,
            *final(mem),
            domain_index(domain as int),
            cptr,
            method,
            arg,
            r,
        ),
{
    let d: usize = if domain < MAX_DOMAINS {
        domain
    } else {
        MAX_DOMAINS - 1
    };
    match resolve(cs, d, cptr, method) {
        Ok(e) => dispatch_method(cs, mem, e, method, arg),
        Err(status) => Invoked::Done(status, 0),
    }
}

/// Invokes a method on a capability of the running domain.
pub fn cap_invoke(cs: &mut CapSpace, mem: &mut Memory, cptr: u16, method: u16, arg: u64) -> (r:
    Invoked)
    requires
        old(mem).wf(),
    ensures
        final(mem).wf(),
        invoked_in(
            old(cs)@,
            *old(mem),
            final(cs)@,
            *final(mem),
            domain_index(old(cs)@.current as int),
            cptr,
            method,
            arg,
            r,
        ),
{
    let d: usize = current_domain(cs);
    cap_invoke_in(cs, mem, d, cptr, method, arg)
}

/// The space after an endpoint was changed.
pub open spec fn with_endpoint(v: SpaceView, i: int, ep: EpSlot) -> SpaceView {
    SpaceView { endpoints: v.endpoints.update(i, ep), ..v }
}

/// The endpoint with nobody waiting any more; what a sender left stays in it unread.
pub open spec fn ep_released(ep: EpSlot) -> EpSlot {
    EpSlot { state: EpState::Idle, ..ep }
}

/// What handing over a capability from domain `src` to domain `dst` gives: nothing to
/// hand over, the new slot, or why it failed. The space is changed only if a
/// capability was moved.
pub open spec fn handed_over(
    v: SpaceView,
    v2: SpaceView,
    src: int,
    xfer: u16,
    dst: int,
    r: Result<u16, Status>,
) -> bool {
    if xfer == CPTR_NONE {
        r == Ok::<u16, Status>(CPTR_NONE) && v2 == v
    } else {
        match r {
            Ok(c) => transfer_status(v, src, xfer, dst) == Status::Success && moved(
                v,
                v2,
                src,
                xfer,
                dst,
                c,
            ),
            Err(status) => status != Status::Success && status == transfer_status(
                v,
                src,
                xfer,
                dst,
            ) && v2 == v,
        }
    }
}

/// Hands over a capability, if there is one to hand over.
fn hand_over(cs: &mut CapSpace, src_dom: usize, xfer: u16, dst_dom: usize) -> (r: Result<
    u16,
    Status,
>)
    ensures
        handed_over(old(cs)@, final(cs)@, src_dom as int, xfer, dst_dom as int, r),
{
    if xfer != CPTR_NONE {
        do_cap_transfer(cs, src_dom, xfer, dst_dom)
    } else {
        Ok(CPTR_NONE)
    }
}

/// What sending on endpoint `i` does and answers. A transfer is refused before
/// anything else if the endpoint capability may not grant or the slot is out of
/// range. With a receiver waiting, the message and the capability are handed over
/// and the receiver is woken; if the handover fails both sides get the failure and
/// nothing moves. With nobody waiting the sender leaves its message and waits. A
/// second sender is refused.
pub open spec fn sent(
    v: SpaceView,
    v2: SpaceView,
    task: u16,
    domain: int,
    i: int,
    msg0: u64,
    xfer: u16,
    rights: Rights,
    r: IpcOutcome,
) -> bool {
    let ep = v.endpoints[i];
    if xfer != CPTR_NONE && !rights.includes(Rights::of(Rights::GRANT_CAP)) {
        r == IpcOutcome::Done(Status::ErrRights, 0, CPTR_NONE) && v2 == v
    } else if xfer != CPTR_NONE && xfer >= CAP_TABLE_SLOTS {
        r == IpcOutcome::Done(Status::ErrBadCPtr, 0, CPTR_NONE) && v2 == v
    } else {
        match ep.state {
            EpState::RecvWait => exists|res: Result<u16, Status>|
                {
                    &&& #[trigger] handed_over(
                        with_endpoint(v, i, ep_released(ep)),
                        v2,
                        domain,
                        xfer,
                        ep.peer_domain as int,
                        res,
                    )
                    &&& r == match res {
                        Ok(c) => IpcOutcome::Handoff(
                            Status::Success,
                            0,
                            CPTR_NONE,
                            Wake {
                                task: ep.peer_task,
                                status: Status::Success,
                                reply: msg0,
                                cptr: c,
                            },
                        ),
                        Err(status) => IpcOutcome::Handoff(
                            status,
                            0,
                            CPTR_NONE,
                            Wake { task: ep.peer_task, status, reply: 0, cptr: CPTR_NONE },
                        ),
                    }
                },
            EpState::SendWait => r == IpcOutcome::Done(Status::ErrRights, 0, CPTR_NONE) && v2 == v,
            EpState::Idle => {
                &&& r == IpcOutcome::ParkSend(i as u16)
                &&& v2 == with_endpoint(
                    v,
                    i,
                    EpSlot {
                        state: EpState::SendWait,
                        peer_task: task,
                        peer_domain: domain as u16,
                        msg0,
                        xfer_cptr: xfer,
                    },
                )
            },
        }
    }
}

/// Sends a message, and possibly a capability, on an endpoint.
fn ep_send(
    cs: &mut CapSpace,
    cur_task: u16,
    send_dom: usize,
    oid: u64,
    msg0: u64,
    xfer: u16,
    rights: Rights,
) -> (r: IpcOutcome)
    requires
        oid < OBJECT_TABLE_SIZE,
        send_dom < MAX_DOMAINS,
    ensures
        sent(
            old(cs)@,
            final(cs)@,
            cur_task,
            send_dom as int,
            oid as int,
            msg0,
            xfer,
            rights,
            r,
        ),
{
    let i: usize = oid as usize;
    let want_xfer = xfer != CPTR_NONE;
    if want_xfer {
        if !rights.contains(Rights::from_bits_truncate(Rights::GRANT_CAP)) {
            return IpcOutcome::Done(Status::ErrRights, 0, CPTR_NONE);
        }
        if xfer as usize >= CAP_TABLE_SLOTS {
            return IpcOutcome::Done(Status::ErrBadCPtr, 0, CPTR_NONE);
        }
    }
    let ep = cs.endpoints[i];
    match ep.state {
        EpState::RecvWait => {
            cs.endpoints[i] =
                EpSlot {
                    state: EpState::Idle,
                    peer_task: ep.peer_task,
                    peer_domain: ep.peer_domain,
                    msg0: ep.msg0,
                    xfer_cptr: ep.xfer_cptr,
                };
            assert(cs@ =~= with_endpoint(old(cs)@, i as int, ep_released(ep)));
            match hand_over(cs, send_dom, xfer, ep.peer_domain as usize) {
                Ok(dst_cptr) => IpcOutcome::Handoff(
                    Status::Success,
                    0,
                    CPTR_NONE,
                    Wake {
                        task: ep.peer_task,
                        status: Status::Success,
                        reply: msg0,
                        cptr: dst_cptr,
                    },
                ),
                Err(e) => IpcOutcome::Handoff(
                    e,
                    0,
                    CPTR_NONE,
                    Wake { task: ep.peer_task, status: e, reply: 0, cptr: CPTR_NONE },
                ),
            }
        },
        EpState::SendWait => IpcOutcome::Done(Status::ErrRights, 0, CPTR_NONE),
        EpState::Idle => {
            cs.endpoints[i] =
                EpSlot {
                    state: EpState::SendWait,
                    peer_task: cur_task,
                    peer_domain: send_dom as u16,
                    msg0,
                    xfer_cptr: xfer,
                };
            IpcOutcome::ParkSend(oid as u16)
        },
    }
}

/// What receiving on endpoint `i` does and answers. With a sender waiting, its
/// message and its capability are taken and it is woken; if the handover fails both
/// sides get the failure and nothing moves. With nobody waiting the receiver waits.
/// A second receiver is refused.
pub open spec fn received(
    v: SpaceView,
    v2: SpaceView,
    task: u16,
    domain: int,
    i: int,
    r: IpcOutcome,
) -> bool {
    let ep = v.endpoints[i];
    match ep.state {
        EpState::SendWait => exists|res: Result<u16, Status>|
            {
                &&& #[trigger] handed_over(
                    with_endpoint(v, i, ep_released(ep)),
                    v2,
                    ep.peer_domain as int,
                    ep.xfer_cptr,
                    domain,
                    res,
                )
                &&& r == match res {
                    Ok(c) => IpcOutcome::Handoff(
                        Status::Success,
                        ep.msg0,
                        c,
                        Wake {
                            task: ep.peer_task,
                            status: Status::Success,
                            reply: 0,
                            cptr: CPTR_NONE,
                        },
                    ),
                    Err(status) => IpcOutcome::Handoff(
                        status,
                        0,
                        CPTR_NONE,
                        Wake { task: ep.peer_task, status, reply: 0, cptr: CPTR_NONE },
                    ),
                }
            },
        EpState::RecvWait => r == IpcOutcome::Done(Status::ErrRights, 0, CPTR_NONE) && v2 == v,
        EpState::Idle => {
            &&& r == IpcOutcome::ParkRecv(i as u16)
            &&& v2 == with_endpoint(
                v,
                i,
                EpSlot {
                    state: EpState::RecvWait,
                    peer_task: task,
                    peer_domain: domain as u16,
                    ..ep
                },
            )
        },
    }
}

/// Receives a message, and possibly a capability, from an endpoint.
fn ep_recv(cs: &mut CapSpace, cur_task: u16, recv_dom: usize, oid: u64) -> (r: IpcOutcome)
    requires
        oid < OBJECT_TABLE_SIZE,
        recv_dom < MAX_DOMAINS,
    ensures
        received(old(cs)@, final(cs)@, cur_task, recv_dom as int, oid as int, r),
{
    let i: usize = oid as usize;
    let ep = cs.endpoints[i];
    match ep.state {
        EpState::SendWait => {
            cs.endpoints[i] =
                EpSlot {
                    state: EpState::Idle,
                    peer_task: ep.peer_task,
                    peer_domain: ep.peer_domain,
                    msg0: ep.msg0,
                    xfer_cptr: ep.xfer_cptr,
                };
            assert(cs@ =~= with_endpoint(old(cs)@, i as int, ep_released(ep)));
            match hand_over(cs, ep.peer_domain as usize, ep.xfer_cptr, recv_dom) {
                Ok(dst_cptr) => IpcOutcome::Handoff(
                    Status::Success,
                    ep.msg0,
                    dst_cptr,
                    Wake { task: ep.peer_task, status: Status::Success, reply: 0, cptr: CPTR_NONE },
                ),
                Err(e) => IpcOutcome::Handoff(
                    e,
                    0,
                    CPTR_NONE,
                    Wake { task: ep.peer_task, status: e, reply: 0, cptr: CPTR_NONE },
                ),
            }
        },
        EpState::RecvWait => IpcOutcome::Done(Status::ErrRights, 0, CPTR_NONE),
        EpState::Idle => {
            cs.endpoints[i] =
                EpSlot {
                    state: EpState::RecvWait,
                    peer_task: cur_task,
                    peer_domain: recv_dom as u16,
                    msg0: ep.msg0,
                    xfer_cptr: ep.xfer_cptr,
                };
            IpcOutcome::ParkRecv(oid as u16)
        },
    }
}

/// The outcome of an invocation without a transfer, as an outcome of one with.
pub open spec fn as_ipc(r: Invoked) -> IpcOutcome {
    match r {
        Invoked::Done(status, reply) => IpcOutcome::Done(status, reply, CPTR_NONE),
        Invoked::MapPages(plan) => IpcOutcome::MapPages(plan),
        Invoked::ReadBlock(lba) => IpcOutcome::ReadBlock(lba),
    }
}

/// What an invocation by the running domain does and answers, with `xfer` the
/// capability to hand over, or none. Only an endpoint takes one.
pub open spec fn invoked_ipc(
    v: SpaceView,
    mem: Memory,
    v2: SpaceView,
    mem2: Memory,
    task: u16,
    cptr: u16,
    method: u16,
    arg0: u64,
    xfer: u16,
    r: IpcOutcome,
) -> bool {
    let domain = domain_index(v.current as int);
    let status = resolve_status(v, domain, cptr);
    let e = v.domains[domain][cptr as int]->0;
    if status != Status::Success {
        r == IpcOutcome::Done(status, 0, CPTR_NONE) && v2 == v && mem2 == mem
    } else if e.type_tag.tag == ObjectKind::ENDPOINT && method == E_SEND {
        mem2 == mem && sent(v, v2, task, domain, e.object_id as int, arg0, xfer, e.rights, r)
    } else if e.type_tag.tag == ObjectKind::ENDPOINT && method == E_RECV {
        mem2 == mem && received(v, v2, task, domain, e.object_id as int, r)
    } else if xfer != CPTR_NONE {
        r == IpcOutcome::Done(Status::ErrMethod, 0, CPTR_NONE) && v2 == v && mem2 == mem
    } else {
        exists|plain: Invoked|
            {
                &&& #[trigger] dispatched(v, mem, v2, mem2, e, method, arg0, plain)
                &&& r == as_ipc(plain)
            }
    }
}

/// Invokes a method on a capability of the running domain, with a capability to hand
/// over. `cur_task` is the running task, which may have to wait.
pub fn cap_invoke_ipc(
    cs: &mut CapSpace,
    mem: &mut Memory,
    cur_task: u16,
    cptr: u16,
    method: u16,
    arg0: u64,
    xfer: u16,
) -> (r: IpcOutcome)
    requires
        old(mem).wf(),
    ensures
        final(mem).wf(),
        invoked_ipc(
            old(cs)@,
            *old(mem),
            final(cs)@,
            *final(mem),
            cur_task,
            cptr,
            method,
            arg0,
            xfer,
            r,
        ),
{
    let domain: usize = current_domain(cs);
    let e = match resolve(cs, domain, cptr, method) {
        Ok(e) => e,
        Err(status) => {
            return IpcOutcome::Done(status, 0, CPTR_NONE);
        },
    };
    let tag: u16 = e.type_tag.raw();
    if tag == ObjectKind::ENDPOINT && method == E_SEND {
        ep_send(cs, cur_task, domain, e.object_id, arg0, xfer, e.rights)
    } else if tag == ObjectKind::ENDPOINT && method == E_RECV {
        ep_recv(cs, cur_task, domain, e.object_id)
    } else {
        if xfer != CPTR_NONE {
            return IpcOutcome::Done(Status::ErrMethod, 0, CPTR_NONE);
        }
        match dispatch_method(cs, mem, e, method, arg0) {
            Invoked::Done(status, reply) => IpcOutcome::Done(status, reply, CPTR_NONE),
            Invoked::MapPages(plan) => IpcOutcome::MapPages(plan),
            Invoked::ReadBlock(lba) => IpcOutcome::ReadBlock(lba),
        }
    }
}

/// `id` is the lowest object id that is free.
pub open spec fn is_lowest_absent(objects: Seq<ObjectMeta>, id: u64) -> bool {
    &&& id < OBJECT_TABLE_SIZE
    &&& crate::table::id_free(objects[id as int])
    &&& crate::table::objects_taken_below(objects, id as int)
}

/// The space with a new object of this kind.
pub open spec fn with_object(v: SpaceView, id: u64, kind: u16) -> SpaceView {
    SpaceView {
        objects: v.objects.update(
            id as int,
            ObjectMeta { kind: ObjectKind { tag: kind }, current_epoch: 0, present: true },
        ),
        ..v
    }
}

/// Minting a capability to object `id` for the root: it stands in the root's lowest
/// free slot, or the root has no free slot and nothing changes.
pub open spec fn root_minted(v: SpaceView, v2: SpaceView, id: u64, rights: u16, r: Option<u16>) ->
    bool {
    match r {
        Some(c) => {
            &&& crate::table::is_lowest_free(v.domains[0], c as int)
            &&& v2 == with_slot(
                v,
                0,
                c as int,
                Some(crate::table::minted(v.objects, id, Rights::of(rights), 0)),
            )
        },
        None => crate::table::slots_taken_below(v.domains[0], CAP_TABLE_SLOTS as int) && v2 == v,
    }
}

/// Creating an object of this kind and minting a capability with these rights to it
/// for the root. With all object ids taken nothing happens.
pub open spec fn created(v: SpaceView, v2: SpaceView, kind: u16, rights: u16, r: Option<u16>) ->
    bool {
    if crate::table::objects_taken_below(v.objects, OBJECT_TABLE_SIZE as int) {
        r is None && v2 == v
    } else {
        exists|id: u64|
            #![trigger is_lowest_absent(v.objects, id)]
            is_lowest_absent(v.objects, id) && root_minted(
                with_object(v, id, kind),
                v2,
                id,
                rights,
                r,
            )
    }
}

/// Takes a new object id.
fn new_object(cs: &mut CapSpace, kind: u16) -> (r: Option<u64>)
    ensures
        match r {
            Some(id) => is_lowest_absent(old(cs)@.objects, id) && final(cs)@ == with_object(
                old(cs)@,
                id,
                kind,
            ),
            None => {
                &&& crate::table::objects_taken_below(
                    old(cs)@.objects,
                    OBJECT_TABLE_SIZE as int,
                )
                &&& final(cs)@ == old(cs)@
            },
        },
{
    let r = cs.objects.create_object(ObjectKind::from_raw(kind));
    proof {
        match r {
            Some(id) => {
                assert(cs@ =~= with_object(old(cs)@, id, kind));
            },
            None => {},
        }
    }
    r
}

/// Mints a capability for the root.
fn mint_root(cs: &mut CapSpace, oid: u64, rights: u16) -> (r: Option<u16>)
    requires
        crate::table::object_present(old(cs)@.objects, oid),
    ensures
        root_minted(old(cs)@, final(cs)@, oid, rights, r),
{
    match cs.domains[0].mint(&cs.objects, oid, Rights::from_bits_truncate(rights), 0) {
        Ok(c) => {
            assert(cs@ =~= with_slot(
                old(cs)@,
                0,
                c as int,
                Some(crate::table::minted(old(cs)@.objects, oid, Rights::of(rights), 0)),
            ));
            Some(c)
        },
        Err(_) => {
            assert(cs@ =~= old(cs)@);
            None
        },
    }
}

/// The rights of the root's memory capability.
pub const ROOT_MEMORY_RIGHTS: u16 = 0x2f;

/// The rights of a notification capability when it is created.
pub const NOTIFICATION_RIGHTS: u16 = 0x0f;

/// The rights of an endpoint capability when it is created.
pub const ENDPOINT_RIGHTS: u16 = 0x4f;

/// The rights of an extent or device queue capability when it is created.
pub const MAPPABLE_RIGHTS: u16 = 0x2f;

/// Creates a memory object, and a capability to it for the root that may be read,
/// written, invoked, mapped and delegated.
pub fn init_root(cs: &mut CapSpace) -> (r: Option<u16>)
    ensures
        created(old(cs)@, final(cs)@, ObjectKind::MEMORY, ROOT_MEMORY_RIGHTS, r),
{
    match new_object(cs, ObjectKind::MEMORY) {
        Some(id) => mint_root(cs, id, ROOT_MEMORY_RIGHTS),
        None => None,
    }
}

/// Creates a notification, and a capability to it for the root that may be read,
/// written, invoked and delegated.
pub fn create_notification(cs: &mut CapSpace) -> (r: Option<u16>)
    ensures
        created(old(cs)@, final(cs)@, ObjectKind::NOTIFICATION, NOTIFICATION_RIGHTS, r),
{
    match new_object(cs, ObjectKind::NOTIFICATION) {
        Some(id) => mint_root(cs, id, NOTIFICATION_RIGHTS),
        None => None,
    }
}

/// Creates an endpoint, and a capability to it for the root that may be read,
/// written, invoked and delegated and may grant capabilities.
pub fn create_endpoint(cs: &mut CapSpace) -> (r: Option<u16>)
    ensures
        created(old(cs)@, final(cs)@, ObjectKind::ENDPOINT, ENDPOINT_RIGHTS, r),
{
    match new_object(cs, ObjectKind::ENDPOINT) {
        Some(id) => mint_root(cs, id, ENDPOINT_RIGHTS),
        None => None,
    }
}

/// Creates a time slice, and a capability to it for the root that may be invoked.
/// Holding it is what admits a task to the run queue.
pub fn mint_timeslice(cs: &mut CapSpace) -> (r: Option<u16>)
    ensures
        created(old(cs)@, final(cs)@, ObjectKind::TIME_SLICE, Rights::INVOKE, r),
{
    match new_object(cs, ObjectKind::TIME_SLICE) {
        Some(id) => mint_root(cs, id, Rights::INVOKE),
        None => None,
    }
}

/// Creating an extent object with this metadata and a capability to it for the root.
pub open spec fn extent_created(v: SpaceView, v2: SpaceView, meta: ExtentMeta, r: Option<u16>) ->
    bool {
    if crate::table::objects_taken_below(v.objects, OBJECT_TABLE_SIZE as int) {
        r is None && v2 == v
    } else {
        exists|id: u64|
            #![trigger is_lowest_absent(v.objects, id)]
            is_lowest_absent(v.objects, id) && root_minted(
                SpaceView {
                    extents: v.extents.update(id as int, meta),
                    ..with_object(v, id, ObjectKind::EXTENT)
                },
                v2,
                id,
                MAPPABLE_RIGHTS,
                r,
            )
    }
}

/// Creates an extent object, and a capability to it for the root that may be read,
/// written, invoked, mapped and delegated.
fn new_extent(cs: &mut CapSpace, meta: ExtentMeta) -> (r: Option<u16>)
    ensures
        extent_created(old(cs)@, final(cs)@, meta, r),
{
    match new_object(cs, ObjectKind::EXTENT) {
        Some(id) => {
            cs.extents[id as usize] = meta;
            assert(cs@ =~= (SpaceView {
                extents: old(cs)@.extents.update(id as int, meta),
                ..with_object(old(cs)@, id, ObjectKind::EXTENT)
            }));
            mint_root(cs, id, MAPPABLE_RIGHTS)
        },
        None => None,
    }
}

/// Creates an extent object for a stored extent.
pub fn mint_extent(cs: &mut CapSpace, lba: u64, len: u32, hash: u64) -> (r: Option<u16>)
    ensures
        extent_created(
            old(cs)@,
            final(cs)@,
            ExtentMeta { lba, len, hash, data_frame_phys: 0 },
            r,
        ),
{
    new_extent(cs, ExtentMeta { lba, len, hash, data_frame_phys: 0 })
}

/// Creates an extent object for a stored extent that was loaded to a frame, so that
/// it can be mapped.
pub fn mint_extent_mapped(cs: &mut CapSpace, lba: u64, len: u32, hash: u64, data_frame_phys: u64) ->
    (r: Option<u16>)
    ensures
        extent_created(
            old(cs)@,
            final(cs)@,
            ExtentMeta { lba, len, hash, data_frame_phys },
            r,
        ),
{
    new_extent(cs, ExtentMeta { lba, len, hash, data_frame_phys })
}

/// Place, length and content hash of an extent, for a valid capability that may be
/// invoked and read.
pub fn extent_metadata(cs: &CapSpace, domain: usize, cptr: u16) -> (r: Option<(u64, u32, u64)>)
    ensures
        ({
            let d = domain_index(domain as int);
            let e = cs@.domains[d][cptr as int]->0;
            let m = cs@.extents[e.object_id as int];
            r == if resolve_status(cs@, d, cptr) == Status::Success && e.type_tag.tag
                == ObjectKind::EXTENT && e.rights.includes(Rights::of(Rights::READ)) {
                Some((m.lba, m.len, m.hash))
            } else {
                None
            }
        }),
{
    let d: usize = if domain < MAX_DOMAINS {
        domain
    } else {
        MAX_DOMAINS - 1
    };
    match resolve(cs, d, cptr, X_READ) {
        Ok(e) => {
            if e.type_tag.raw() == ObjectKind::EXTENT && e.rights.contains(
                Rights::from_bits_truncate(Rights::READ),
            ) {
                let m = cs.extents[e.object_id as usize];
                Some((m.lba, m.len, m.hash))
            } else {
                None
            }
        },
        Err(_) => None,
    }
}

/// Creating a device queue object for a queue, if there is one, and a capability to it for
/// the root.
pub open spec fn queue_created(
    v: SpaceView,
    v2: SpaceView,
    queue: Option<DeviceQueueDesc>,
    magic: u64,
    scratch_lba: u64,
    r: Option<u16>,
) -> bool {
    if queue is None || crate::table::objects_taken_below(v.objects, OBJECT_TABLE_SIZE as int) {
        r is None && v2 == v
    } else {
        exists|id: u64|
            #![trigger is_lowest_absent(v.objects, id)]
            is_lowest_absent(v.objects, id) && root_minted(
                SpaceView {
                    devqueues: v.devqueues.update(
                        id as int,
                        DqMeta { queue: queue->0, magic, scratch_lba },
                    ),
                    ..with_object(v, id, ObjectKind::DEVICE_QUEUE)
                },
                v2,
                id,
                MAPPABLE_RIGHTS,
                r,
            )
    }
}

/// Creates a device queue object for a queue of the disk, if the disk is ready, and a
/// capability to it for the root that may be read, written, invoked, mapped and
/// delegated. `magic` is what the driver is expected to read from `scratch_lba`.
pub fn create_device_queue(
    cs: &mut CapSpace,
    queue: Option<DeviceQueueDesc>,
    magic: u64,
    scratch_lba: u64,
) -> (r: Option<u16>)
    ensures
        queue_created(old(cs)@, final(cs)@, queue, magic, scratch_lba, r),
{
    let q = match queue {
        Some(q) => q,
        None => {
            return None;
        },
    };
    match new_object(cs, ObjectKind::DEVICE_QUEUE) {
        Some(id) => {
            cs.devqueues[id as usize] = DqMeta { queue: q, magic, scratch_lba };
            assert(cs@ =~= (SpaceView {
                devqueues: old(cs)@.devqueues.update(
                    id as int,
                    DqMeta { queue: q, magic, scratch_lba },
                ),
                ..with_object(old(cs)@, id, ObjectKind::DEVICE_QUEUE)
            }));
            mint_root(cs, id, MAPPABLE_RIGHTS)
        },
        None => None,
    }
}

/// Delegating `src_cptr` of the root to domain `dst` under `mask`: the new capability
/// stands in the domain's lowest free slot. Nothing changes, and there is no answer, if
/// the domain is the root or out of range, the capability may not be delegated, or the
/// domain has no free slot.
pub open spec fn root_delegated(
    v: SpaceView,
    v2: SpaceView,
    dst: int,
    src_cptr: u16,
    mask: Rights,
    badge: u16,
    r: Option<u16>,
) -> bool {
    match r {
        Some(c) => {
            &&& 1 <= dst < MAX_DOMAINS
            &&& crate::table::delegate_status(v.domains[0], v.objects, src_cptr)
                == Status::Success
            &&& crate::table::is_lowest_free(v.domains[dst], c as int)
            &&& v2 == with_slot(
                v,
                dst,
                c as int,
                Some(
                    crate::table::delegated(v.domains[0][src_cptr as int]->0, mask, badge),
                ),
            )
        },
        None => {
            &&& v2 == v
            &&& {
                ||| !(1 <= dst < MAX_DOMAINS)
                ||| crate::table::delegate_status(v.domains[0], v.objects, src_cptr)
                    != Status::Success
                ||| crate::table::slots_taken_below(v.domains[dst], CAP_TABLE_SLOTS as int)
            }
        },
    }
}

/// Delegates a capability of the root to another domain, with only the rights of
/// `mask` left.
pub fn delegate_from_root(
    cs: &mut CapSpace,
    dst_domain: usize,
    src_cptr: u16,
    mask: Rights,
    badge: u16,
) -> (r: Option<u16>)
    ensures
        root_delegated(old(cs)@, final(cs)@, dst_domain as int, src_cptr, mask, badge, r),
{
    if dst_domain == 0 || dst_domain >= MAX_DOMAINS {
        return None;
    }
    let child = match cs.domains[0].derive(&cs.objects, src_cptr, mask, badge) {
        Ok(e) => e,
        Err(_) => {
            return None;
        },
    };
    match cs.domains[dst_domain].insert(child) {
        Ok(c) => {
            assert(cs@ =~= with_slot(old(cs)@, dst_domain as int, c as int, Some(child)));
            Some(c)
        },
        Err(_) => {
            assert(cs@ =~= old(cs)@);
            None
        },
    }
}

/// The endpoint after a task died: free again if it was the task that waited.
pub open spec fn ep_reaped(ep: EpSlot, task: u16) -> EpSlot {
    if ep.state != EpState::Idle && ep.peer_task == task {
        ep_empty()
    } else {
        ep
    }
}

/// The space after a task of a domain died.
pub open spec fn reaped(v: SpaceView, domain: u16, task: u16) -> SpaceView {
    SpaceView {
        domains: if domain < MAX_DOMAINS {
            v.domains.update(domain as int, Seq::new(CAP_TABLE_SLOTS as nat, |i: int| None))
        } else {
            v.domains
        },
        endpoints: Seq::new(
            OBJECT_TABLE_SIZE as nat,
            |i: int| ep_reaped(v.endpoints[i], task),
        ),
        maps: if domain < MAX_DOMAINS {
            v.maps.update(domain as int, Seq::empty())
        } else {
            v.maps
        },
        ..v
    }
}

/// Takes a dead domain's authority away: its table is cleared, every endpoint on
/// which the dead task waited is freed, and the pages that were mapped for it are
/// given back to be unmapped. Objects stay, for those who still hold capabilities to
/// them.
pub fn reap_domain(cs: &mut CapSpace, domain: u16, task_idx: u16) -> (r: Vec<u64>)
    ensures
        final(cs)@ == reaped(old(cs)@, domain, task_idx),
        r@ == if domain < MAX_DOMAINS {
            old(cs)@.maps[domain as int]
        } else {
            Seq::empty()
        },
{
    let d: usize = domain as usize;
    let mut pages: Vec<u64> = Vec::new();
    if d < MAX_DOMAINS {
        cs.domains[d] = CapTable::new();
        let n: usize = cs.maps[d].len();
        let mut k: usize = 0;
        while k < n
            invariant
                k <= n,
                d < MAX_DOMAINS,
                n == cs.maps@[d as int]@.len(),
                pages@ == cs.maps@[d as int]@.take(k as int),
            decreases n - k,
        {
            pages.push(cs.maps[d][k]);
            k = k + 1;
            assert(pages@ =~= cs.maps@[d as int]@.take(k as int));
        }
        assert(pages@ =~= cs.maps@[d as int]@);
        cs.maps[d] = Vec::new();
    }
    let ghost mid = cs@;
    let mut i: usize = 0;
    while i < OBJECT_TABLE_SIZE
        invariant
            i <= OBJECT_TABLE_SIZE,
            cs@ == (SpaceView { endpoints: cs@.endpoints, ..mid }),
            mid.endpoints == old(cs)@.endpoints,
            forall|j: int|
                0 <= j < i ==> #[trigger] cs@.endpoints[j] == ep_reaped(
                    old(cs)@.endpoints[j],
                    task_idx,
                ),
            forall|j: int|
                i <= j < OBJECT_TABLE_SIZE ==> #[trigger] cs@.endpoints[j]
                    == old(cs)@.endpoints[j],
        decreases OBJECT_TABLE_SIZE - i,
    {
        let ep = cs.endpoints[i];
        if ep.state != EpState::Idle && ep.peer_task == task_idx {
            cs.endpoints[i] = empty_endpoint();
            assert(cs@ =~= (SpaceView { endpoints: cs@.endpoints, ..mid }));
        }
        i = i + 1;
    }
    proof {
        let want = reaped(old(cs)@, domain, task_idx);
        assert(cs@.endpoints =~= want.endpoints);
        if domain < MAX_DOMAINS {
            assert(mid.domains[d as int] =~= want.domains[d as int]);
        }
        assert(cs@.domains =~= want.domains);
        assert(cs@.maps =~= want.maps);
        assert(cs@ =~= want);
    }
    pages
}

/// Revokes the object of a root capability and invokes the capability once more. The
/// answer is that of the invocation, or `ErrBadCPtr` if the capability was not valid
/// to begin with.
pub fn demo_revoke_then_invoke(cs: &mut CapSpace, mem: &mut Memory, cptr: u16) -> (r: Status)
    requires
        old(mem).wf(),
    ensures
        final(mem).wf(),
        *final(mem) == *old(mem),
        r == if crate::table::slot_status(old(cs)@.domains[0], old(cs)@.objects, cptr)
            == Status::Success {
            Status::ErrRevoked
        } else {
            Status::ErrBadCPtr
        },
        r == Status::ErrRevoked ==> final(cs)@ == with_revoked(
            old(cs)@,
            old(cs)@.domains[0][cptr as int]->0.object_id,
        ),
        r != Status::ErrRevoked ==> final(cs)@ == old(cs)@,
{
    let object_id: u64 = match cs.domains[0].lookup(cptr, &cs.objects) {
        Ok(e) => e.object_id,
        Err(_) => {
            return Status::ErrBadCPtr;
        },
    };
    let _ = cs.objects.revoke(object_id);
    assert(cs@ =~= with_revoked(old(cs)@, object_id));
    match cap_invoke_in(cs, mem, 0, cptr, M_ALLOC, 0) {
        Invoked::Done(status, _) => status,
        _ => Status::ErrMethod,
    }
}

/// The space after an object was revoked.
pub open spec fn with_revoked(v: SpaceView, id: u64) -> SpaceView {
    SpaceView {
        objects: v.objects.update(id as int, crate::table::revoked(v.objects[id as int])),
        ..v
    }
}

/// What asking for admission to the run queue with a root capability answers: it must
/// be valid, carry the right to be invoked, and name a time slice.
pub open spec fn admit_status(v: SpaceView, cptr: u16) -> Status {
    let status = resolve_status(v, 0, cptr);
    if status == Status::Success && v.domains[0][cptr as int]->0.type_tag.tag
        != ObjectKind::TIME_SLICE {
        Status::ErrType
    } else {
        status
    }
}

/// Whether a root capability admits to the run queue, and if not, why.
pub fn admit_check(cs: &CapSpace, cptr: u16) -> (r: Status)
    ensures
        r == admit_status(cs@, cptr),
{
    match resolve(cs, 0, cptr, M_GRANT_TIME) {
        Ok(e) => {
            if e.type_tag.raw() == ObjectKind::TIME_SLICE {
                Status::Success
            } else {
                Status::ErrType
            }
        },
        Err(status) => status,
    }
}

/// Revokes the object of a root capability.
pub fn revoke_timeslice(cs: &mut CapSpace, cptr: u16) -> (r: Status)
    ensures
        r == crate::table::slot_status(old(cs)@.domains[0], old(cs)@.objects, cptr),
        r == Status::Success ==> final(cs)@ == with_revoked(
            old(cs)@,
            old(cs)@.domains[0][cptr as int]->0.object_id,
        ),
        r != Status::Success ==> final(cs)@ == old(cs)@,
{
    let object_id: u64 = match cs.domains[0].lookup(cptr, &cs.objects) {
        Ok(e) => e.object_id,
        Err(status) => {
            return status;
        },
    };
    let r = cs.objects.revoke(object_id);
    assert(cs@ =~= with_revoked(old(cs)@, object_id));
    r
}

impl SpaceView {
    /// Every table has as many entries as it has in a capability space.
    pub open spec fn wf(self) -> bool {
        &&& self.objects.len() == OBJECT_TABLE_SIZE
        &&& self.domains.len() == MAX_DOMAINS
        &&& forall|d: int|
            0 <= d < MAX_DOMAINS ==> (#[trigger] self.domains[d]).len() == CAP_TABLE_SLOTS
        &&& self.notify.len() == OBJECT_TABLE_SIZE
        &&& self.endpoints.len() == OBJECT_TABLE_SIZE
        &&& self.extents.len() == OBJECT_TABLE_SIZE
        &&& self.devqueues.len() == OBJECT_TABLE_SIZE
        &&& self.maps.len() == MAX_DOMAINS
    }

    /// Some domain holds this capability.
    pub open spec fn holds(self, e: CapEntry) -> bool {
        exists|d: int, i: int|
            0 <= d < MAX_DOMAINS && 0 <= i < CAP_TABLE_SLOTS && #[trigger] self.domains[d][i]
                == Some(e)
    }
}

/// `child` is no more than `parent`: the same object at the same epoch, and no right
/// that `parent` lacks.
pub open spec fn derives(parent: CapEntry, child: CapEntry) -> bool {
    &&& child.object_id == parent.object_id
    &&& child.epoch == parent.epoch
    &&& child.type_tag == parent.type_tag
    &&& parent.rights.includes(child.rights)
}

/// Every capability that is held after derives from one that was held before.
pub open spec fn confined(before: SpaceView, after: SpaceView) -> bool {
    forall|e: CapEntry| #[trigger]
        after.holds(e) ==> exists|p: CapEntry| #[trigger] before.holds(p) && derives(p, e)
}

/// Derivation may be repeated.
proof fn lemma_derives_transitive(a: CapEntry, b: CapEntry, c: CapEntry)
    requires
        derives(a, b),
        derives(b, c),
    ensures
        derives(a, c),
{
    let x = a.rights.bits;
    let y = b.rights.bits;
    let z = c.rights.bits;
    assert(x & z == z) by (bit_vector)
        requires
            x & y == y,
            y & z == z,
    ;
}

/// A capability derives from itself.
proof fn lemma_derives_reflexive(a: CapEntry)
    ensures
        derives(a, a),
{
    let x = a.rights.bits;
    assert(x & x == x) by (bit_vector);
}

/// Tables that are the same, and slots that were cleared, add no authority.
proof fn lemma_same_tables_confined(before: SpaceView, after: SpaceView)
    requires
        forall|d: int, i: int|
            0 <= d < MAX_DOMAINS && 0 <= i < CAP_TABLE_SLOTS ==> (#[trigger] after.domains[d][i])
                is None || after.domains[d][i] == before.domains[d][i],
    ensures
        confined(before, after),
{
    assert forall|e: CapEntry| #[trigger] after.holds(e) implies exists|p: CapEntry| #[trigger]
        before.holds(p) && derives(p, e) by {
        let (d, i) = choose|d: int, i: int|
            0 <= d < MAX_DOMAINS && 0 <= i < CAP_TABLE_SLOTS && #[trigger] after.domains[d][i]
                == Some(e);
        assert(before.domains[d][i] == Some(e));
        lemma_derives_reflexive(e);
        assert(before.holds(e));
    }
}

/// Confinement carries over from step to step.
pub proof fn law_confinement_composes(a: SpaceView, b: SpaceView, c: SpaceView)
    requires
        confined(a, b),
        confined(b, c),
    ensures
        confined(a, c),
{
    assert forall|e: CapEntry| #[trigger] c.holds(e) implies exists|p: CapEntry| #[trigger]
        a.holds(p) && derives(p, e) by {
        let q = choose|q: CapEntry| #[trigger] b.holds(q) && derives(q, e);
        let p = choose|p: CapEntry| #[trigger] a.holds(p) && derives(p, q);
        lemma_derives_transitive(p, q, e);
        assert(a.holds(p) && derives(p, e));
    }
}

/// No sequence of confined steps, however long, yields authority that does not
/// derive from a capability that was held at its start.
pub proof fn law_no_sequence_creates_authority(trace: Seq<SpaceView>)
    requires
        trace.len() > 0,
        forall|i: int| 0 <= i < trace.len() - 1 ==> confined(#[trigger] trace[i], trace[i + 1]),
    ensures
        confined(trace[0], trace.last()),
    decreases trace.len(),
{
    if trace.len() == 1 {
        lemma_same_tables_confined(trace[0], trace[0]);
    } else {
        let front = trace.drop_last();
        assert forall|i: int| 0 <= i < front.len() - 1 implies confined(
            #[trigger] front[i],
            front[i + 1],
        ) by {
            assert(front[i] == trace[i]);
            assert(confined(trace[i], trace[i + 1]));
        }
        law_no_sequence_creates_authority(front);
        let n = trace.len() - 2;
        assert(confined(trace[n], trace[n + 1]));
        law_confinement_composes(trace[0], front.last(), trace.last());
    }
}

/// Writing an entry that derives from one that is held adds no authority.
proof fn lemma_insert_confined(v: SpaceView, domain: int, slot: int, p: CapEntry, e: CapEntry)
    requires
        v.wf(),
        0 <= domain < MAX_DOMAINS,
        0 <= slot < CAP_TABLE_SLOTS,
        v.holds(p),
        derives(p, e),
    ensures
        with_slot(v, domain, slot, Some(e)).wf(),
        confined(v, with_slot(v, domain, slot, Some(e))),
{
    let after = with_slot(v, domain, slot, Some(e));
    assert forall|x: CapEntry| #[trigger] after.holds(x) implies exists|q: CapEntry| #[trigger]
        v.holds(q) && derives(q, x) by {
        let (d, i) = choose|d: int, i: int|
            0 <= d < MAX_DOMAINS && 0 <= i < CAP_TABLE_SLOTS && #[trigger] after.domains[d][i]
                == Some(x);
        if d == domain && i == slot {
            assert(v.holds(p) && derives(p, x));
        } else {
            assert(v.domains[d][i] == Some(x));
            lemma_derives_reflexive(x);
            assert(v.holds(x) && derives(x, x));
        }
    }
}

/// What a transfer does to authority and to the two slots.
proof fn lemma_moved(
    v: SpaceView,
    after: SpaceView,
    src: int,
    src_cptr: u16,
    dst: int,
    dst_cptr: u16,
)
    requires
        v.wf(),
        0 <= src,
        0 <= dst,
        transfer_status(v, src, src_cptr, dst) == Status::Success,
        moved(v, after, src, src_cptr, dst, dst_cptr),
    ensures
        after.wf(),
        confined(v, after),
{
    let p = v.domains[src][src_cptr as int]->0;
    let all = Rights { bits: Rights::KNOWN };
    let e = crate::table::delegated(p, all, 0);
    crate::capability::law_meet_never_amplifies(p.rights, all);
    assert(v.domains[src][src_cptr as int] == Some(p));
    assert(v.holds(p));
    lemma_insert_confined(v, dst, dst_cptr as int, p, e);
    let mid = with_slot(v, dst, dst_cptr as int, Some(e));
    lemma_same_tables_confined(mid, after);
    law_confinement_composes(v, mid, after);
}

/// Nothing that a domain can ask for creates authority: after any invocation, with or
/// without a transfer, every capability derives from one that was held before.
pub proof fn law_invocation_is_confined(
    v: SpaceView,
    mem: Memory,
    v2: SpaceView,
    mem2: Memory,
    task: u16,
    cptr: u16,
    method: u16,
    arg0: u64,
    xfer: u16,
    r: IpcOutcome,
)
    requires
        v.wf(),
        invoked_ipc(v, mem, v2, mem2, task, cptr, method, arg0, xfer, r),
    ensures
        v2.wf(),
        confined(v, v2),
{
    let domain = domain_index(v.current as int);
    let status = resolve_status(v, domain, cptr);
    let e = v.domains[domain][cptr as int]->0;
    if status == Status::Success && e.type_tag.tag == ObjectKind::ENDPOINT && (method == E_SEND
        || method == E_RECV) {
        let i = e.object_id as int;
        let ep = v.endpoints[i];
        let freed = with_endpoint(v, i, ep_released(ep));
        if method == E_SEND && ep.state == EpState::RecvWait && !(xfer != CPTR_NONE && (
        !e.rights.includes(Rights::of(Rights::GRANT_CAP)) || xfer >= CAP_TABLE_SLOTS)) {
            let res = choose|res: Result<u16, Status>| #[trigger]
                handed_over(freed, v2, domain, xfer, ep.peer_domain as int, res) && r == match res {
                    Ok(c) => IpcOutcome::Handoff(
                        Status::Success,
                        0,
                        CPTR_NONE,
                        Wake {
                            task: ep.peer_task,
                            status: Status::Success,
                            reply: arg0,
                            cptr: c,
                        },
                    ),
                    Err(status) => IpcOutcome::Handoff(
                        status,
                        0,
                        CPTR_NONE,
                        Wake { task: ep.peer_task, status, reply: 0, cptr: CPTR_NONE },
                    ),
                };
            lemma_handover_confined(freed, v2, domain, xfer, ep.peer_domain as int, res);
            lemma_same_tables_confined(v, freed);
            law_confinement_composes(v, freed, v2);
        } else if method == E_RECV && ep.state == EpState::SendWait {
            let res = choose|res: Result<u16, Status>| #[trigger]
                handed_over(freed, v2, ep.peer_domain as int, ep.xfer_cptr, domain, res) && r
                    == match res {
                    Ok(c) => IpcOutcome::Handoff(
                        Status::Success,
                        ep.msg0,
                        c,
                        Wake {
                            task: ep.peer_task,
                            status: Status::Success,
                            reply: 0,
                            cptr: CPTR_NONE,
                        },
                    ),
                    Err(status) => IpcOutcome::Handoff(
                        status,
                        0,
                        CPTR_NONE,
                        Wake { task: ep.peer_task, status, reply: 0, cptr: CPTR_NONE },
                    ),
                };
            lemma_handover_confined(
                freed,
                v2,
                ep.peer_domain as int,
                ep.xfer_cptr,
                domain,
                res,
            );
            lemma_same_tables_confined(v, freed);
            law_confinement_composes(v, freed, v2);
        } else {
            lemma_same_tables_confined(v, v2);
        }
    } else {
        lemma_same_tables_confined(v, v2);
    }
}

/// Handing a capability over adds no authority.
proof fn lemma_handover_confined(
    v: SpaceView,
    v2: SpaceView,
    src: int,
    xfer: u16,
    dst: int,
    r: Result<u16, Status>,
)
    requires
        v.wf(),
        0 <= src,
        0 <= dst,
        handed_over(v, v2, src, xfer, dst, r),
    ensures
        v2.wf(),
        confined(v, v2),
{
    if xfer != CPTR_NONE && r is Ok {
        lemma_moved(v, v2, src, xfer, dst, r->Ok_0);
    } else {
        lemma_same_tables_confined(v, v2);
    }
}

/// A delegation by the root adds no authority either.
pub proof fn law_delegation_is_confined(
    v: SpaceView,
    v2: SpaceView,
    dst: int,
    src_cptr: u16,
    mask: Rights,
    badge: u16,
    r: Option<u16>,
)
    requires
        v.wf(),
        root_delegated(v, v2, dst, src_cptr, mask, badge, r),
    ensures
        v2.wf(),
        confined(v, v2),
{
    match r {
        Some(c) => {
            let p = v.domains[0][src_cptr as int]->0;
            crate::capability::law_meet_never_amplifies(p.rights, mask);
            assert(v.domains[0][src_cptr as int] == Some(p));
            assert(v.holds(p));
            lemma_insert_confined(
                v,
                dst,
                c as int,
                p,
                crate::table::delegated(p, mask, badge),
            );
        },
        None => {
            lemma_same_tables_confined(v, v2);
        },
    }
}

/// A transfer is a move: the source slot is empty afterwards, the destination holds a
/// valid capability to the same object at the same epoch with the same rights, and
/// no other slot of any domain changes.
pub proof fn law_transfer_is_a_move(
    v: SpaceView,
    after: SpaceView,
    src: int,
    src_cptr: u16,
    dst: int,
    dst_cptr: u16,
)
    requires
        v.wf(),
        0 <= src,
        0 <= dst,
        v.domains[src][src_cptr as int]->0.rights.wf(),
        transfer_status(v, src, src_cptr, dst) == Status::Success,
        moved(v, after, src, src_cptr, dst, dst_cptr),
    ensures
        after.domains[src][src_cptr as int] is None,
        after.domains[dst][dst_cptr as int] == Some(
            CapEntry { badge: 0, ..v.domains[src][src_cptr as int]->0 },
        ),
        crate::table::slot_status(after.domains[dst], after.objects, dst_cptr) == Status::Success,
        forall|d: int, i: int|
            0 <= d < MAX_DOMAINS && 0 <= i < CAP_TABLE_SLOTS && !(d == src && i == src_cptr) && !(d
                == dst && i == dst_cptr) ==> #[trigger] after.domains[d][i] == v.domains[d][i],
{
}

/// It does not matter who comes first to an endpoint. Whether the sender waits for
/// the receiver or the receiver for the sender, the receiver gets the same status,
/// message and capability, the sender gets the same status, and the tables of all
/// domains end up the same.
pub proof fn law_rendezvous_order_does_not_matter(
    v: SpaceView,
    i: int,
    send_task: u16,
    send_dom: int,
    msg0: u64,
    xfer: u16,
    rights: Rights,
    recv_task: u16,
    recv_dom: int,
    sender_first: SpaceView,
    sender_first_end: SpaceView,
    parked_send: IpcOutcome,
    recv_answer: IpcOutcome,
    receiver_first: SpaceView,
    receiver_first_end: SpaceView,
    parked_recv: IpcOutcome,
    send_answer: IpcOutcome,
)
    requires
        v.wf(),
        0 <= i < OBJECT_TABLE_SIZE,
        0 <= send_dom < MAX_DOMAINS,
        0 <= recv_dom < MAX_DOMAINS,
        v.endpoints[i].state == EpState::Idle,
        xfer == CPTR_NONE || (xfer < CAP_TABLE_SLOTS && rights.includes(
            Rights::of(Rights::GRANT_CAP),
        )),
        sent(v, sender_first, send_task, send_dom, i, msg0, xfer, rights, parked_send),
        received(sender_first, sender_first_end, recv_task, recv_dom, i, recv_answer),
        received(v, receiver_first, recv_task, recv_dom, i, parked_recv),
        sent(
            receiver_first,
            receiver_first_end,
            send_task,
            send_dom,
            i,
            msg0,
            xfer,
            rights,
            send_answer,
        ),
    ensures
        parked_send == IpcOutcome::ParkSend(i as u16),
        parked_recv == IpcOutcome::ParkRecv(i as u16),
        recv_answer matches IpcOutcome::Handoff(status, reply, cptr, wake_sender) && (
        send_answer matches IpcOutcome::Handoff(send_status, send_reply, send_cptr, wake_receiver)
            && {
            &&& wake_receiver == (Wake { task: recv_task, status, reply, cptr })
            &&& wake_sender == (Wake {
                task: send_task,
                status: send_status,
                reply: send_reply,
                cptr: send_cptr,
            })
        }),
        sender_first_end.domains == receiver_first_end.domains,
        sender_first_end.endpoints[i].state == EpState::Idle,
        receiver_first_end.endpoints[i].state == EpState::Idle,
{
    let ep1 = sender_first.endpoints[i];
    let ep2 = receiver_first.endpoints[i];
    let freed1 = with_endpoint(sender_first, i, ep_released(ep1));
    let freed2 = with_endpoint(receiver_first, i, ep_released(ep2));
    let res1 = choose|res: Result<u16, Status>| #[trigger]
        handed_over(freed1, sender_first_end, send_dom, xfer, recv_dom, res) && recv_answer
            == match res {
            Ok(c) => IpcOutcome::Handoff(
                Status::Success,
                msg0,
                c,
                Wake { task: send_task, status: Status::Success, reply: 0, cptr: CPTR_NONE },
            ),
            Err(status) => IpcOutcome::Handoff(
                status,
                0,
                CPTR_NONE,
                Wake { task: send_task, status, reply: 0, cptr: CPTR_NONE },
            ),
        };
    let res2 = choose|res: Result<u16, Status>| #[trigger]
        handed_over(freed2, receiver_first_end, send_dom, xfer, recv_dom, res) && send_answer
            == match res {
            Ok(c) => IpcOutcome::Handoff(
                Status::Success,
                0,
                CPTR_NONE,
                Wake { task: recv_task, status: Status::Success, reply: msg0, cptr: c },
            ),
            Err(status) => IpcOutcome::Handoff(
                status,
                0,
                CPTR_NONE,
                Wake { task: recv_task, status, reply: 0, cptr: CPTR_NONE },
            ),
        };
    assert(freed1.domains == freed2.domains);
    assert(freed1.objects == freed2.objects);
    if xfer != CPTR_NONE {
        if let Ok(c1) = res1 {
            if let Ok(c2) = res2 {
                let dst = freed1.domains[recv_dom];
                assert(crate::table::is_lowest_free(dst, c1 as int));
                assert(crate::table::is_lowest_free(dst, c2 as int));
                if c1 < c2 {
                    assert(dst[c1 as int] is Some);
                } else if c2 < c1 {
                    assert(dst[c2 as int] is Some);
                }
            }
        }
    }
}

/// Bits that are signalled are found by the next poll, together with those that were
/// pending, and by no later one.
pub proof fn law_poll_takes_what_was_signalled(
    v: SpaceView,
    mem: Memory,
    signaller: CapEntry,
    poller: CapEntry,
    bits: u64,
    signalled: SpaceView,
    mem1: Memory,
    r1: Invoked,
    polled: SpaceView,
    mem2: Memory,
    r2: Invoked,
    polled_again: SpaceView,
    mem3: Memory,
    r3: Invoked,
)
    requires
        v.wf(),
        signaller.type_tag.tag == ObjectKind::NOTIFICATION,
        poller.type_tag.tag == ObjectKind::NOTIFICATION,
        signaller.object_id == poller.object_id,
        signaller.object_id < OBJECT_TABLE_SIZE,
        signaller.rights.includes(Rights::of(Rights::WRITE)),
        poller.rights.includes(Rights::of(Rights::READ)),
        dispatched(v, mem, signalled, mem1, signaller, N_SIGNAL, bits, r1),
        dispatched(signalled, mem1, polled, mem2, poller, N_POLL, 0, r2),
        dispatched(polled, mem2, polled_again, mem3, poller, N_POLL, 0, r3),
    ensures
        r1 == Invoked::Done(Status::Success, 0),
        r2 == Invoked::Done(Status::Success, v.notify[signaller.object_id as int] | bits),
        r3 == Invoked::Done(Status::Success, 0),
{
}

/// A method that is refused changes nothing: whenever the status is not `Success`, the
/// space and the memory are as before and the reply is 0.
pub proof fn law_refused_invocation_changes_nothing(
    v: SpaceView,
    mem: Memory,
    v2: SpaceView,
    mem2: Memory,
    domain: int,
    cptr: u16,
    method: u16,
    arg: u64,
    status: Status,
    reply: u64,
)
    requires
        invoked_in(
            v,
            mem,
            v2,
            mem2,
            domain,
            cptr,
            method,
            arg,
            Invoked::Done(status, reply),
        ),
        status != Status::Success,
    ensures
        v2 == v,
        mem2 == mem,
        reply == 0,
{
}

/// A frame number from a caller is never given to the frame allocator: freeing is
/// refused whatever the number and whatever the rights.
pub proof fn law_free_is_always_refused(
    v: SpaceView,
    mem: Memory,
    v2: SpaceView,
    mem2: Memory,
    e: CapEntry,
    frame: u64,
    r: Invoked,
)
    requires
        e.type_tag.tag == ObjectKind::MEMORY,
        dispatched(v, mem, v2, mem2, e, M_FREE, frame, r),
    ensures
        r == Invoked::Done(Status::ErrMethod, 0),
        mem2 == mem,
        v2 == v,
{
    lemma_right_bits();
    let x = e.rights.bits;
    assert(x & 0u16 == 0);
}

/// A domain acts only through its own table: whether an invocation is admitted, and on
/// which entry, is the same whatever the other domains hold. And no invocation
/// without a transfer changes any table.
pub proof fn law_domains_are_isolated(
    v: SpaceView,
    w: SpaceView,
    mem: Memory,
    v2: SpaceView,
    mem2: Memory,
    domain: int,
    cptr: u16,
    method: u16,
    arg: u64,
    r: Invoked,
)
    requires
        v.objects == w.objects,
        v.domains[domain] == w.domains[domain],
        invoked_in(v, mem, v2, mem2, domain, cptr, method, arg, r),
    ensures
        resolve_status(w, domain, cptr) == resolve_status(v, domain, cptr),
        w.domains[domain][cptr as int] == v.domains[domain][cptr as int],
        v2.domains == v.domains,
        v2.objects == v.objects,
{
}

/// A method runs only with its right: if anything but a refusal comes back, the entry
/// carries the right that the method asks for.
pub proof fn law_methods_need_their_right(
    v: SpaceView,
    mem: Memory,
    v2: SpaceView,
    mem2: Memory,
    e: CapEntry,
    method: u16,
    arg: u64,
    r: Invoked,
)
    requires
        dispatched(v, mem, v2, mem2, e, method, arg, r),
        r != Invoked::Done(Status::ErrRights, 0),
    ensures
        e.rights.includes(Rights::of(method_right(e.type_tag, method))),
        r is MapPages ==> e.rights.includes(Rights::of(Rights::MAP)),
        r is ReadBlock ==> e.rights.includes(Rights::of(Rights::WRITE)),
{
}

/// The same device queue serves trusted and untrusted drivers: a capability that may
/// write but not map is refused the mapping and admitted to submission.
pub proof fn law_submission_needs_no_mapping(
    v: SpaceView,
    mem: Memory,
    e: CapEntry,
    lba: u64,
    v2: SpaceView,
    mem2: Memory,
    r_map: Invoked,
    v3: SpaceView,
    mem3: Memory,
    r_submit: Invoked,
)
    requires
        e.type_tag.tag == ObjectKind::DEVICE_QUEUE,
        e.rights.includes(Rights::of(Rights::WRITE)),
        !e.rights.includes(Rights::of(Rights::MAP)),
        dispatched(v, mem, v2, mem2, e, DQ_MAP, lba, r_map),
        dispatched(v, mem, v3, mem3, e, DQ_SUBMIT, lba, r_submit),
    ensures
        r_map == Invoked::Done(Status::ErrRights, 0),
        r_submit == Invoked::ReadBlock(lba),
{
}

/// No page that is mapped for a domain is executable, a page that is not to be cached
/// is writable, and the pages of a plan follow each other from its base.
pub proof fn law_mapped_pages_are_data(plan: MapPlan, i: int)
    requires
        0 <= i < plan_pages(plan).len(),
    ensures
        !plan_pages(plan)[i].executable,
        plan_pages(plan)[i].no_cache ==> plan_pages(plan)[i].writable,
        plan_pages(plan)[i].va == plan_base(plan) + i * 0x1000,
{
}

/// A dead domain has no authority left: none of its capability pointers names
/// anything, no endpoint waits for its task, all pages that were mapped for it are
/// given back, and the tables of the others are as before.
pub proof fn law_reaped_domain_has_no_authority(
    v: SpaceView,
    domain: u16,
    task: u16,
    cptr: u16,
    other: int,
    i: int,
)
    requires
        v.wf(),
        domain < MAX_DOMAINS,
        0 <= other < MAX_DOMAINS,
        other != domain,
        0 <= i < OBJECT_TABLE_SIZE,
    ensures
        resolve_status(reaped(v, domain, task), domain as int, cptr) == Status::ErrBadCPtr,
        reaped(v, domain, task).domains[other] == v.domains[other],
        reaped(v, domain, task).objects == v.objects,
        reaped(v, domain, task).maps[domain as int] == Seq::<u64>::empty(),
        reaped(v, domain, task).endpoints[i].state != EpState::Idle ==> reaped(
            v,
            domain,
            task,
        ).endpoints[i].peer_task != task,
        v.endpoints[i].peer_task != task ==> reaped(v, domain, task).endpoints[i]
            == v.endpoints[i],
        confined(v, reaped(v, domain, task)),
{
    lemma_same_tables_confined(v, reaped(v, domain, task));
}

/// Time that was revoked is denied: once a time slice is revoked, the capability that
/// was admitted before is refused.
pub proof fn law_revoked_time_is_denied(v: SpaceView, cptr: u16)
    requires
        v.wf(),
        admit_status(v, cptr) == Status::Success,
    ensures
        admit_status(with_revoked(v, v.domains[0][cptr as int]->0.object_id), cptr)
            == Status::ErrRevoked,
{
}

/// Revoking an object cuts it off everywhere: in whatever domain a capability to it was
/// valid, invoking it is answered `ErrRevoked`.
pub proof fn law_revocation_reaches_every_domain(
    v: SpaceView,
    id: u64,
    domain: int,
    cptr: u16,
    mem: Memory,
    v2: SpaceView,
    mem2: Memory,
    method: u16,
    arg: u64,
    r: Invoked,
)
    requires
        v.wf(),
        0 <= domain < MAX_DOMAINS,
        crate::table::slot_status(v.domains[domain], v.objects, cptr) == Status::Success,
        v.domains[domain][cptr as int]->0.object_id == id,
        invoked_in(with_revoked(v, id), mem, v2, mem2, domain, cptr, method, arg, r),
    ensures
        r == Invoked::Done(Status::ErrRevoked, 0),
        v2 == with_revoked(v, id),
        mem2 == mem,
{
}

/// Each right is one bit among the defined ones.
proof fn lemma_right_bits()
    by (bit_vector)
    ensures
        0x01u16 & 0xFF == 0x01,
        0x02u16 & 0xFF == 0x02,
        0x04u16 & 0xFF == 0x04,
        0x08u16 & 0xFF == 0x08,
        0x20u16 & 0xFF == 0x20,
        0x40u16 & 0xFF == 0x40,
        0x2fu16 & 0xFF == 0x2f,
        0x0fu16 & 0xFF == 0x0f,
        0x4fu16 & 0xFF == 0x4f,
        0u16 & 0xFF == 0,
        forall|x: u16| #[trigger] (x & 0u16) == 0,
{
}

/// What a rendezvous did to the tables: a capability that was handed over stands, with all
/// of its rights, in a slot of the receiver that was free, and is gone from the sender; if
/// none was handed over, or the rendezvous failed, no table has changed.
spec fn capability_changed_hands(
    v: SpaceView,
    v2: SpaceView,
    status: Status,
    send_dom: int,
    xfer: u16,
    recv_dom: int,
    cptr: u16,
) -> bool {
    if xfer == 0xffff {
        status == Status::Success && cptr == 0xffff && v2.domains == v.domains
    } else if status == Status::Success {
        let was = v.domains[send_dom][xfer as int]->0;
        let now = v2.domains[recv_dom][cptr as int]->0;
        &&& send_dom != recv_dom
        &&& v.domains[send_dom][xfer as int] is Some
        &&& was.rights.bits & 0x08 == 0x08
        &&& v.domains[recv_dom][cptr as int] is None
        &&& v2.domains[send_dom][xfer as int] is None
        &&& v2.domains[recv_dom][cptr as int] is Some
        &&& now.object_id == was.object_id
        &&& now.epoch == was.epoch
        &&& now.type_tag == was.type_tag
        &&& now.rights.bits == was.rights.bits & 0xff
        &&& now.badge == 0
        &&& forall|d: int, i: int|
            0 <= d < 6 && 0 <= i < 256 && !(d == send_dom && i == xfer) && !(d == recv_dom && i
                == cptr) ==> #[trigger] v2.domains[d][i] == v.domains[d][i]
    } else {
        cptr == 0xffff && v2.domains == v.domains
    }
}

/// A handover changes the tables as it should.
proof fn lemma_handover_changes_hands(
    v: SpaceView,
    v2: SpaceView,
    src: int,
    xfer: u16,
    dst: int,
    res: Result<u16, Status>,
)
    requires
        v.wf(),
        0 <= src < 6,
        0 <= dst < 6,
        xfer == 0xffff || xfer < 256,
        handed_over(v, v2, src, xfer, dst, res),
    ensures
        res matches Ok(c) ==> capability_changed_hands(v, v2, Status::Success, src, xfer, dst, c),
        res matches Err(status) ==> status != Status::Success && capability_changed_hands(
            v,
            v2,
            status,
            src,
            xfer,
            dst,
            0xffff,
        ),
        v2.endpoints == v.endpoints,
{
    lemma_right_bits();
}

/// A receiver that waits gets what is sent. If a task waits to receive on an endpoint, and
/// another task then sends a word over it, then the receiver is woken with that very word,
/// all of it, and with the capability that was handed over, if any. The sender learns only
/// whether it went well, and both learn the same. If it did not go well the receiver gets no
/// word, and nothing has moved.
pub proof fn law_waiting_receiver_gets_the_message(
    v: SpaceView,
    mem: Memory,
    waiting: SpaceView,
    mem1: Memory,
    recv_task: u16,
    recv_cptr: u16,
    any: u64,
    no_matter: u16,
    oid: u16,
    send_dom: u16,
    end: SpaceView,
    mem2: Memory,
    send_task: u16,
    send_cptr: u16,
    word: u64,
    xfer: u16,
    status: Status,
    reply: u64,
    cptr: u16,
    wake: Wake,
)
    requires
        v.wf(),
        v.current < 6,
        send_dom < 6,
        invoked_ipc(
            v,
            mem,
            waiting,
            mem1,
            recv_task,
            recv_cptr,
            2,
            any,
            no_matter,
            IpcOutcome::ParkRecv(oid),
        ),
        invoked_ipc(
            SpaceView { current: send_dom, ..waiting },
            mem1,
            end,
            mem2,
            send_task,
            send_cptr,
            1,
            word,
            xfer,
            IpcOutcome::Handoff(status, reply, cptr, wake),
        ),
        v.domains[send_dom as int][send_cptr as int]->0.object_id
            == v.domains[v.current as int][recv_cptr as int]->0.object_id,
    ensures
        wake.task == recv_task,
        wake.status == status,
        status == Status::Success ==> wake.reply == word,
        status != Status::Success ==> wake.reply == 0,
        reply == 0,
        cptr == 0xffff,
        xfer == 0xffff || v.domains[send_dom as int][send_cptr as int]->0.rights.bits & 0x40 == 0x40,
        xfer == 0xffff ==> status == Status::Success && wake.cptr == 0xffff && end.domains == v.domains,
        xfer != 0xffff ==> status == transfer_status(v, send_dom as int, xfer, v.current as int),
        status != Status::Success ==> wake.cptr == 0xffff && end.domains == v.domains,
        xfer != 0xffff && status == Status::Success ==> ({
            let was = v.domains[send_dom as int][xfer as int]->0;
            let now = end.domains[v.current as int][wake.cptr as int]->0;
            &&& send_dom != v.current
            &&& v.domains[send_dom as int][xfer as int] is Some
            &&& was.rights.bits & 0x08 == 0x08
            &&& v.domains[v.current as int][wake.cptr as int] is None
            &&& end.domains[send_dom as int][xfer as int] is None
            &&& end.domains[v.current as int][wake.cptr as int] is Some
            &&& now.object_id == was.object_id
            &&& now.epoch == was.epoch
            &&& now.type_tag == was.type_tag
            &&& now.rights.bits == was.rights.bits & 0xff
            &&& now.badge == 0
            &&& forall|d: int, i: int|
                0 <= d < 6 && 0 <= i < 256 && !(d == send_dom && i == xfer) && !(d == v.current && i
                    == wake.cptr) ==> #[trigger] end.domains[d][i] == v.domains[d][i]
        }),
        end.endpoints[v.domains[v.current as int][recv_cptr as int]->0.object_id as int].state
            == EpState::Idle,
        mem2 == mem,
{
    lemma_right_bits();
    let w = SpaceView { current: send_dom, ..waiting };
    let i = v.domains[v.current as int][recv_cptr as int]->0.object_id as int;
    let ep = w.endpoints[i];
    let freed = with_endpoint(w, i, ep_released(ep));
    let res = choose|res: Result<u16, Status>| #[trigger]
        handed_over(freed, end, send_dom as int, xfer, ep.peer_domain as int, res) && (
        IpcOutcome::Handoff(status, reply, cptr, wake) == match res {
            Ok(c) => IpcOutcome::Handoff(
                Status::Success,
                0,
                CPTR_NONE,
                Wake { task: ep.peer_task, status: Status::Success, reply: word, cptr: c },
            ),
            Err(e) => IpcOutcome::Handoff(
                e,
                0,
                CPTR_NONE,
                Wake { task: ep.peer_task, status: e, reply: 0, cptr: CPTR_NONE },
            ),
        });
    lemma_handover_changes_hands(freed, end, send_dom as int, xfer, ep.peer_domain as int, res);
}

/// A sender that waits is heard. If a task sends a word over an endpoint and has to wait,
/// and another task then receives from the endpoint, then the answer to the receiver is that
/// very word, all of it, and the capability that was handed over, if any. The sender is woken
/// and learns only whether it went well, and both learn the same. If it did not go well the
/// receiver gets no word, and nothing has moved.
pub proof fn law_waiting_sender_is_heard(
    v: SpaceView,
    mem: Memory,
    waiting: SpaceView,
    mem1: Memory,
    send_task: u16,
    send_cptr: u16,
    word: u64,
    xfer: u16,
    oid: u16,
    recv_dom: u16,
    end: SpaceView,
    mem2: Memory,
    recv_task: u16,
    recv_cptr: u16,
    any: u64,
    no_matter: u16,
    status: Status,
    reply: u64,
    cptr: u16,
    wake: Wake,
)
    requires
        v.wf(),
        v.current < 6,
        recv_dom < 6,
        invoked_ipc(
            v,
            mem,
            waiting,
            mem1,
            send_task,
            send_cptr,
            1,
            word,
            xfer,
            IpcOutcome::ParkSend(oid),
        ),
        invoked_ipc(
            SpaceView { current: recv_dom, ..waiting },
            mem1,
            end,
            mem2,
            recv_task,
            recv_cptr,
            2,
            any,
            no_matter,
            IpcOutcome::Handoff(status, reply, cptr, wake),
        ),
        v.domains[recv_dom as int][recv_cptr as int]->0.object_id
            == v.domains[v.current as int][send_cptr as int]->0.object_id,
    ensures
        wake.task == send_task,
        wake.status == status,
        status == Status::Success ==> reply == word,
        status != Status::Success ==> reply == 0,
        wake.reply == 0,
        wake.cptr == 0xffff,
        xfer == 0xffff || v.domains[v.current as int][send_cptr as int]->0.rights.bits & 0x40 == 0x40,
        xfer == 0xffff ==> status == Status::Success && cptr == 0xffff && end.domains == v.domains,
        xfer != 0xffff ==> status == transfer_status(v, v.current as int, xfer, recv_dom as int),
        status != Status::Success ==> cptr == 0xffff && end.domains == v.domains,
        xfer != 0xffff && status == Status::Success ==> ({
            let was = v.domains[v.current as int][xfer as int]->0;
            let now = end.domains[recv_dom as int][cptr as int]->0;
            &&& v.current != recv_dom
            &&& v.domains[v.current as int][xfer as int] is Some
            &&& was.rights.bits & 0x08 == 0x08
            &&& v.domains[recv_dom as int][cptr as int] is None
            &&& end.domains[v.current as int][xfer as int] is None
            &&& end.domains[recv_dom as int][cptr as int] is Some
            &&& now.object_id == was.object_id
            &&& now.epoch == was.epoch
            &&& now.type_tag == was.type_tag
            &&& now.rights.bits == was.rights.bits & 0xff
            &&& now.badge == 0
            &&& forall|d: int, i: int|
                0 <= d < 6 && 0 <= i < 256 && !(d == v.current && i == xfer) && !(d == recv_dom && i
                    == cptr) ==> #[trigger] end.domains[d][i] == v.domains[d][i]
        }),
        end.endpoints[v.domains[v.current as int][send_cptr as int]->0.object_id as int].state
            == EpState::Idle,
        mem2 == mem,
{
    lemma_right_bits();
    let w = SpaceView { current: recv_dom, ..waiting };
    let i = v.domains[v.current as int][send_cptr as int]->0.object_id as int;
    let ep = w.endpoints[i];
    let freed = with_endpoint(w, i, ep_released(ep));
    let res = choose|res: Result<u16, Status>| #[trigger]
        handed_over(freed, end, ep.peer_domain as int, ep.xfer_cptr, recv_dom as int, res) && (
        IpcOutcome::Handoff(status, reply, cptr, wake) == match res {
            Ok(c) => IpcOutcome::Handoff(
                Status::Success,
                ep.msg0,
                c,
                Wake { task: ep.peer_task, status: Status::Success, reply: 0, cptr: CPTR_NONE },
            ),
            Err(e) => IpcOutcome::Handoff(
                e,
                0,
                CPTR_NONE,
                Wake { task: ep.peer_task, status: e, reply: 0, cptr: CPTR_NONE },
            ),
        });
    lemma_handover_changes_hands(
        freed,
        end,
        ep.peer_domain as int,
        ep.xfer_cptr,
        recv_dom as int,
        res,
    );
}

/// Who is served at an endpoint, and who waits. With a valid capability to an endpoint, a
/// partner that waits is served at once, so that a plain word always gets through; with
/// nobody there the caller waits; and a second task that wants the same is refused and
/// changes nothing.
pub proof fn law_endpoint_serves_one_partner(
    v: SpaceView,
    mem: Memory,
    v2: SpaceView,
    mem2: Memory,
    task: u16,
    cptr: u16,
    method: u16,
    word: u64,
    r: IpcOutcome,
)
    requires
        v.wf(),
        v.current < 6,
        resolve_status(v, v.current as int, cptr) == Status::Success,
        v.domains[v.current as int][cptr as int]->0.type_tag.tag == 5,
        method == 1 || method == 2,
        invoked_ipc(v, mem, v2, mem2, task, cptr, method, word, 0xffff, r),
    ensures
        ({
            let i = v.domains[v.current as int][cptr as int]->0.object_id as int;
            let ep = v.endpoints[i];
            let same = if method == 1 {
                EpState::SendWait
            } else {
                EpState::RecvWait
            };
            &&& ep.state == EpState::Idle ==> {
                &&& r == if method == 1 {
                    IpcOutcome::ParkSend(i as u16)
                } else {
                    IpcOutcome::ParkRecv(i as u16)
                }
                &&& v2.endpoints[i].state == same
                &&& v2.endpoints[i].peer_task == task
                &&& v2.endpoints[i].peer_domain == v.current
            }
            &&& ep.state == same ==> r == IpcOutcome::Done(Status::ErrRights, 0, 0xffff) && v2 == v
            &&& ep.state != same && ep.state != EpState::Idle ==> {
                &&& r is Handoff
                &&& v2.endpoints[i].state == EpState::Idle
            }
            &&& method == 1 && ep.state == EpState::RecvWait ==> r == IpcOutcome::Handoff(
                Status::Success,
                0,
                0xffff,
                Wake { task: ep.peer_task, status: Status::Success, reply: word, cptr: 0xffff },
            )
            &&& v2.endpoints.len() == v.endpoints.len()
            &&& forall|k: int|
                0 <= k < v.endpoints.len() && k != i ==> v2.endpoints[k]
                    == #[trigger] v.endpoints[k]
            &&& v2.notify == v.notify
            &&& v2.extents == v.extents
            &&& v2.devqueues == v.devqueues
            &&& v2.objects == v.objects
        }),
{
}

/// No capability is handed over an endpoint without the right to grant, or from a slot that
/// there is not: the call is refused and changes nothing, whoever waits.
pub proof fn law_granting_needs_the_right(
    v: SpaceView,
    mem: Memory,
    v2: SpaceView,
    mem2: Memory,
    task: u16,
    cptr: u16,
    word: u64,
    xfer: u16,
    r: IpcOutcome,
)
    requires
        v.current < 6,
        resolve_status(v, v.current as int, cptr) == Status::Success,
        v.domains[v.current as int][cptr as int]->0.type_tag.tag == 5,
        xfer != 0xffff,
        invoked_ipc(v, mem, v2, mem2, task, cptr, 1, word, xfer, r),
    ensures
        v.domains[v.current as int][cptr as int]->0.rights.bits & 0x40 != 0x40 ==> r
            == IpcOutcome::Done(Status::ErrRights, 0, 0xffff) && v2 == v && mem2 == mem,
        v.domains[v.current as int][cptr as int]->0.rights.bits & 0x40 == 0x40 && xfer >= 256 ==> r
            == IpcOutcome::Done(Status::ErrBadCPtr, 0, 0xffff) && v2 == v && mem2 == mem,
{
    lemma_right_bits();
}

/// Only an endpoint takes a capability: handing one to any other object is refused and
/// changes nothing.
pub proof fn law_only_endpoints_take_capabilities(
    v: SpaceView,
    mem: Memory,
    v2: SpaceView,
    mem2: Memory,
    task: u16,
    cptr: u16,
    method: u16,
    word: u64,
    xfer: u16,
    r: IpcOutcome,
)
    requires
        v.current < 6,
        resolve_status(v, v.current as int, cptr) == Status::Success,
        v.domains[v.current as int][cptr as int]->0.type_tag.tag != 5,
        xfer != 0xffff,
        invoked_ipc(v, mem, v2, mem2, task, cptr, method, word, xfer, r),
    ensures
        r == IpcOutcome::Done(Status::ErrMethod, 0, 0xffff),
        v2 == v,
        mem2 == mem,
{
}

/// Invoking without a capability to hand over is the same, by whatever way: the answer of an
/// object that is no endpoint is passed on whole.
pub proof fn law_plain_answers_are_passed_on(
    v: SpaceView,
    mem: Memory,
    v2: SpaceView,
    mem2: Memory,
    task: u16,
    cptr: u16,
    method: u16,
    word: u64,
    plain: Invoked,
)
    requires
        v.current < 6,
        v.domains[v.current as int][cptr as int]->0.type_tag.tag != 5,
        invoked_in(v, mem, v2, mem2, v.current as int, cptr, method, word, plain),
    ensures
        invoked_ipc(v, mem, v2, mem2, task, cptr, method, word, 0xffff, as_ipc(plain)),
        plain matches Invoked::Done(status, reply) ==> as_ipc(plain) == IpcOutcome::Done(
            status,
            reply,
            0xffff,
        ),
        plain matches Invoked::MapPages(plan) ==> as_ipc(plain) == IpcOutcome::MapPages(plan),
        plain matches Invoked::ReadBlock(lba) ==> as_ipc(plain) == IpcOutcome::ReadBlock(lba),
{
    let e = v.domains[v.current as int][cptr as int]->0;
    if resolve_status(v, v.current as int, cptr) == Status::Success {
        assert(dispatched(v, mem, v2, mem2, e, method, word, plain));
    }
}

/// A report is judged by the mark that the queue was created with. Whoever holds a valid
/// capability to the queue that may write, in whatever domain, is answered 1 if it reports
/// exactly that mark, all 64 bits of it, and 0 if it reports anything else.
pub proof fn law_report_is_judged_by_the_mark(
    v: SpaceView,
    made: SpaceView,
    queue: DeviceQueueDesc,
    mark: u64,
    scratch_lba: u64,
    root: u16,
    w: SpaceView,
    mem: Memory,
    w2: SpaceView,
    mem2: Memory,
    domain: int,
    cptr: u16,
    reported: u64,
    r: Invoked,
)
    requires
        v.wf(),
        queue_created(v, made, Some(queue), mark, scratch_lba, Some(root)),
        w.devqueues == made.devqueues,
        resolve_status(w, domain, cptr) == Status::Success,
        w.domains[domain][cptr as int]->0.object_id == made.domains[0][root as int]->0.object_id,
        w.domains[domain][cptr as int]->0.type_tag == made.domains[0][root as int]->0.type_tag,
        w.domains[domain][cptr as int]->0.rights.bits & 0x02 == 0x02,
        invoked_in(w, mem, w2, mem2, domain, cptr, 3, reported, r),
    ensures
        r == Invoked::Done(Status::Success, 1) <==> reported == mark,
        r == Invoked::Done(Status::Success, 0) <==> reported != mark,
        w2 == w,
        mem2 == mem,
{
    lemma_right_bits();
}

/// What a device queue answers is what it was created with: its size to those who may read,
/// its pages to those who may map, if it was set up, and to those who may write the sector
/// that they ask for. All others are refused, and nothing changes.
pub proof fn law_queue_answers_what_it_was_created_with(
    v: SpaceView,
    made: SpaceView,
    queue: DeviceQueueDesc,
    mark: u64,
    scratch_lba: u64,
    root: u16,
    w: SpaceView,
    mem: Memory,
    w2: SpaceView,
    mem2: Memory,
    domain: int,
    cptr: u16,
    method: u16,
    arg: u64,
    r: Invoked,
)
    requires
        v.wf(),
        queue_created(v, made, Some(queue), mark, scratch_lba, Some(root)),
        w.devqueues == made.devqueues,
        resolve_status(w, domain, cptr) == Status::Success,
        w.domains[domain][cptr as int]->0.object_id == made.domains[0][root as int]->0.object_id,
        w.domains[domain][cptr as int]->0.type_tag == made.domains[0][root as int]->0.type_tag,
        invoked_in(w, mem, w2, mem2, domain, cptr, method, arg, r),
    ensures
        ({
            let bits = w.domains[domain][cptr as int]->0.rights.bits;
            let refused = Invoked::Done(Status::ErrRights, 0);
            &&& method == 1 ==> r == if bits & 0x01 == 0x01 {
                Invoked::Done(Status::Success, queue.qsize as u64)
            } else {
                refused
            }
            &&& method == 2 ==> r == if bits & 0x20 != 0x20 {
                refused
            } else if queue.buf_phys == 0 {
                Invoked::Done(Status::ErrMethod, 0)
            } else {
                Invoked::MapPages(MapPlan::Queue(queue))
            }
            &&& method == 3 && bits & 0x02 != 0x02 ==> r == refused
            &&& method == 4 ==> r == if bits & 0x02 == 0x02 {
                Invoked::ReadBlock(arg)
            } else {
                refused
            }
            &&& method == 0 || method > 4 ==> r == Invoked::Done(Status::ErrMethod, 0)
        }),
        w2 == w,
        mem2 == mem,
{
    lemma_right_bits();
    let b = w.domains[domain][cptr as int]->0.rights.bits;
    assert(b & 0u16 == 0);
}

/// What an extent answers is what it was created with: its content hash, all 64 bits of it,
/// to those who may read, and the frame it was loaded to, if any, to those who may map. It
/// is never written through a register. All others are refused, and nothing changes.
pub proof fn law_extent_answers_what_it_was_created_with(
    v: SpaceView,
    made: SpaceView,
    meta: ExtentMeta,
    root: u16,
    w: SpaceView,
    mem: Memory,
    w2: SpaceView,
    mem2: Memory,
    domain: int,
    cptr: u16,
    method: u16,
    arg: u64,
    r: Invoked,
)
    requires
        v.wf(),
        extent_created(v, made, meta, Some(root)),
        w.extents == made.extents,
        resolve_status(w, domain, cptr) == Status::Success,
        w.domains[domain][cptr as int]->0.object_id == made.domains[0][root as int]->0.object_id,
        w.domains[domain][cptr as int]->0.type_tag == made.domains[0][root as int]->0.type_tag,
        invoked_in(w, mem, w2, mem2, domain, cptr, method, arg, r),
    ensures
        ({
            let bits = w.domains[domain][cptr as int]->0.rights.bits;
            let refused = Invoked::Done(Status::ErrRights, 0);
            let no_such = Invoked::Done(Status::ErrMethod, 0);
            &&& method == 1 ==> r == if bits & 0x01 == 0x01 {
                Invoked::Done(Status::Success, meta.hash)
            } else {
                refused
            }
            &&& method == 2 || method == 3 ==> r == if bits & 0x02 == 0x02 {
                no_such
            } else {
                refused
            }
            &&& method == 4 ==> r == if bits & 0x20 != 0x20 {
                refused
            } else if meta.data_frame_phys == 0 {
                no_such
            } else {
                Invoked::MapPages(MapPlan::Extent(meta.data_frame_phys))
            }
            &&& method == 0 || method > 4 ==> r == no_such
        }),
        w.extents[made.domains[0][root as int]->0.object_id as int] == meta,
        w2 == w,
        mem2 == mem,
{
    lemma_right_bits();
    let b = w.domains[domain][cptr as int]->0.rights.bits;
    assert(b & 0u16 == 0);
}

/// A notification keeps the bits that were raised, each of the 64 by itself, until they are
/// taken: raising bits answers 0 and leaves those that were raised before, and taking them
/// answers all of them and leaves none. Raising asks for the right to write, taking for the
/// right to read, and nothing else is touched.
pub proof fn law_notification_keeps_each_bit(
    v: SpaceView,
    mem: Memory,
    v2: SpaceView,
    mem2: Memory,
    domain: int,
    cptr: u16,
    method: u16,
    bits: u64,
    r: Invoked,
    k: u64,
)
    requires
        v.wf(),
        resolve_status(v, domain, cptr) == Status::Success,
        v.domains[domain][cptr as int]->0.type_tag.tag == 6,
        invoked_in(v, mem, v2, mem2, domain, cptr, method, bits, r),
        k < 64,
    ensures
        ({
            let e = v.domains[domain][cptr as int]->0;
            let was = v.notify[e.object_id as int];
            let now = v2.notify[e.object_id as int];
            &&& method == 1 && e.rights.bits & 0x02 == 0x02 ==> {
                &&& r == Invoked::Done(Status::Success, 0)
                &&& (now >> k) & 1 == 1 <==> (was >> k) & 1 == 1 || (bits >> k) & 1 == 1
            }
            &&& method == 2 && e.rights.bits & 0x01 == 0x01 ==> {
                &&& r == Invoked::Done(Status::Success, was)
                &&& now == 0
            }
            &&& (method == 1 && e.rights.bits & 0x02 != 0x02) || (method == 2 && e.rights.bits & 0x01
                != 0x01) ==> r == Invoked::Done(Status::ErrRights, 0) && v2 == v
            &&& method == 0 || method > 2 ==> r == Invoked::Done(Status::ErrMethod, 0) && v2 == v
            &&& v2.notify.len() == v.notify.len()
            &&& forall|j: int|
                0 <= j < v.notify.len() && j != e.object_id ==> v2.notify[j]
                    == #[trigger] v.notify[j]
        }),
        mem2 == mem,
        v2 == (SpaceView { notify: v2.notify, ..v }),
{
    lemma_right_bits();
    let e = v.domains[domain][cptr as int]->0;
    let was = v.notify[e.object_id as int];
    let b = e.rights.bits;
    assert(b & 0u16 == 0);
    assert(((was | bits) >> k) & 1 == 1 <==> (was >> k) & 1 == 1 || (bits >> k) & 1 == 1)
        by (bit_vector);
}

/// A memory object hands out frames and does nothing else: the lowest free frame, which is
/// not free any more afterwards, or a refusal if there is none. It takes none back.
pub proof fn law_memory_hands_out_the_lowest_frame(
    v: SpaceView,
    mem: Memory,
    v2: SpaceView,
    mem2: Memory,
    domain: int,
    cptr: u16,
    method: u16,
    arg: u64,
    r: Invoked,
    f: int,
)
    requires
        resolve_status(v, domain, cptr) == Status::Success,
        v.domains[domain][cptr as int]->0.type_tag.tag == 2,
        invoked_in(v, mem, v2, mem2, domain, cptr, method, arg, r),
    ensures
        method != 1 ==> r == Invoked::Done(Status::ErrMethod, 0) && mem2 == mem,
        method == 1 && mem.frames() == Set::<int>::empty() ==> r == Invoked::Done(
            Status::ErrRights,
            0,
        ) && mem2 == mem,
        method == 1 && mem.frames().contains(f) ==> {
            &&& r matches Invoked::Done(status, frame) && status == Status::Success && frame <= f
                && mem.frames().contains(frame as int) && mem2.frames() == mem.frames().remove(
                frame as int,
            )
        },
        mem2.hhdm_offset == mem.hhdm_offset,
        v2 == v,
{
    lemma_right_bits();
    let b = v.domains[domain][cptr as int]->0.rights.bits;
    assert(b & 0u16 == 0);
}

/// An object of any other kind has no methods.
pub proof fn law_other_kinds_have_no_methods(
    v: SpaceView,
    mem: Memory,
    v2: SpaceView,
    mem2: Memory,
    domain: int,
    cptr: u16,
    method: u16,
    arg: u64,
    r: Invoked,
)
    requires
        resolve_status(v, domain, cptr) == Status::Success,
        v.domains[domain][cptr as int]->0.type_tag.tag != 2,
        v.domains[domain][cptr as int]->0.type_tag.tag != 6,
        v.domains[domain][cptr as int]->0.type_tag.tag != 8,
        v.domains[domain][cptr as int]->0.type_tag.tag != 9,
        invoked_in(v, mem, v2, mem2, domain, cptr, method, arg, r),
    ensures
        r == Invoked::Done(Status::ErrMethod, 0),
        v2 == v,
        mem2 == mem,
{
    lemma_right_bits();
    let b = v.domains[domain][cptr as int]->0.rights.bits;
    assert(b & 0u16 == 0);
}

/// Who may invoke: a domain acts through its own table, and the capability must be valid and
/// carry the right to be invoked.
pub proof fn law_who_may_invoke(v: SpaceView, domain: int, cptr: u16)
    requires
        v.wf(),
        0 <= domain < 6,
    ensures
        ({
            let e = v.domains[domain][cptr as int]->0;
            let m = v.objects[e.object_id as int];
            let valid = crate::table::slot_status(v.domains[domain], v.objects, cptr);
            &&& resolve_status(v, domain, cptr) == Status::Success <==> {
                &&& cptr < 256
                &&& v.domains[domain][cptr as int] is Some
                &&& e.object_id < 1024
                &&& m.present
                &&& m.current_epoch == e.epoch
                &&& m.kind.tag == e.type_tag.tag
                &&& e.rights.bits & 0x04 == 0x04
            }
            &&& resolve_status(v, domain, cptr) == if valid == Status::Success && e.rights.bits
                & 0x04 != 0x04 {
                Status::ErrRights
            } else {
                valid
            }
        }),
        domain_index(domain) == domain,
        domain_index(domain + 6) == 5,
{
    lemma_right_bits();
}

/// An invocation that is not admitted is answered why, and has no effect, with and without a
/// capability to hand over.
pub proof fn law_refusal_says_why(
    v: SpaceView,
    mem: Memory,
    v2: SpaceView,
    mem2: Memory,
    task: u16,
    cptr: u16,
    method: u16,
    arg: u64,
    xfer: u16,
    r: IpcOutcome,
)
    requires
        v.current < 6,
        resolve_status(v, v.current as int, cptr) != Status::Success,
        invoked_ipc(v, mem, v2, mem2, task, cptr, method, arg, xfer, r),
    ensures
        r == IpcOutcome::Done(resolve_status(v, v.current as int, cptr), 0, 0xffff),
        v2 == v,
        mem2 == mem,
{
}

/// When a capability can be moved to another domain: it must be there, valid and free to be
/// delegated, and the other domain must be another one and have a free slot.
pub proof fn law_when_a_capability_can_move(v: SpaceView, src: int, cptr: u16, dst: int, i: int)
    requires
        v.wf(),
        0 <= src,
        0 <= dst,
        0 <= i < 256,
    ensures
        ({
            let e = v.domains[src][cptr as int]->0;
            let filled = cptr < 256 && v.domains[src][cptr as int] is Some;
            let valid = crate::table::slot_status(v.domains[src], v.objects, cptr);
            let status = transfer_status(v, src, cptr, dst);
            &&& src == dst || src >= 6 || dst >= 6 ==> status == Status::ErrBadCPtr
            &&& src != dst && src < 6 && dst < 6 ==> {
                &&& !filled ==> status == Status::ErrBadCPtr
                &&& filled && e.rights.bits & 0x08 != 0x08 ==> status == Status::ErrRights
                &&& filled && e.rights.bits & 0x08 == 0x08 && valid != Status::Success ==> status
                    == valid
                &&& filled && e.rights.bits & 0x08 == 0x08 && valid == Status::Success
                    && v.domains[dst][i] is None ==> status == Status::Success
            }
            &&& status == Status::Success ==> exists|c: int|
                0 <= c < 256 && (#[trigger] v.domains[dst][c]) is None
        }),
{
    lemma_right_bits();
    if transfer_status(v, src, cptr, dst) == Status::Success {
        let c = choose|c: int|
            0 <= c < CAP_TABLE_SLOTS && !((#[trigger] v.domains[dst][c]) is Some);
        assert(v.domains[dst][c] is None);
    }
}

/// What stands in the space after the root created something: a capability in the lowest slot
/// of the root that was free, valid, without a badge, to an object that was not there before,
/// with exactly these rights and of exactly this kind. Nothing else has changed.
pub open spec fn root_holds_new(v: SpaceView, v2: SpaceView, c: u16, kind: u16, rights: u16) ->
    bool {
    let e = v2.domains[0][c as int]->0;
    let id = e.object_id as int;
    &&& c < 256
    &&& v.domains[0][c as int] is None
    &&& v2.domains[0][c as int] is Some
    &&& forall|i: int| 0 <= i < c ==> (#[trigger] v.domains[0][i]) is Some
    &&& forall|d: int, i: int|
        0 <= d < 6 && 0 <= i < 256 && !(d == 0 && i == c) ==> #[trigger] v2.domains[d][i]
            == v.domains[d][i]
    &&& 0 <= id < 1024
    &&& !v.objects[id].present
    &&& v2.objects[id].present
    &&& v2.objects[id].kind.tag == kind
    &&& v2.objects[id].current_epoch == 0
    &&& e.epoch == 0
    &&& forall|i: int| 0 <= i < 1024 && i != id ==> #[trigger] v2.objects[i] == v.objects[i]
    &&& e.type_tag.tag == kind
    &&& e.rights.bits == rights
    &&& e.badge == 0
    &&& v2.notify == v.notify
    &&& v2.endpoints == v.endpoints
    &&& v2.maps == v.maps
    &&& v2.current == v.current
}

/// Memory, notifications, endpoints and time slices come with the rights that they are used
/// with: the root may read, write, invoke and delegate all but a time slice, may map memory,
/// and may grant capabilities through an endpoint. A time slice can only be invoked.
pub proof fn law_root_holds_what_it_creates(v: SpaceView, v2: SpaceView, c: u16)
    requires
        v.wf(),
    ensures
        created(v, v2, ObjectKind::MEMORY, ROOT_MEMORY_RIGHTS, Some(c)) ==> root_holds_new(
            v,
            v2,
            c,
            2,
            0x2f,
        ) && v2.extents == v.extents && v2.devqueues == v.devqueues,
        created(v, v2, ObjectKind::NOTIFICATION, NOTIFICATION_RIGHTS, Some(c)) ==> root_holds_new(
            v,
            v2,
            c,
            6,
            0x0f,
        ) && v2.extents == v.extents && v2.devqueues == v.devqueues,
        created(v, v2, ObjectKind::ENDPOINT, ENDPOINT_RIGHTS, Some(c)) ==> root_holds_new(
            v,
            v2,
            c,
            5,
            0x4f,
        ) && v2.extents == v.extents && v2.devqueues == v.devqueues,
        created(v, v2, ObjectKind::TIME_SLICE, Rights::INVOKE, Some(c)) ==> root_holds_new(
            v,
            v2,
            c,
            7,
            0x04,
        ) && v2.extents == v.extents && v2.devqueues == v.devqueues,
{
    lemma_right_bits();
}

/// Extents and device queues come with the rights to be read, written, invoked, mapped and
/// delegated. Their data are those that they were created with, and the data of the others
/// stay.
pub proof fn law_root_holds_extents_and_queues(
    v: SpaceView,
    v2: SpaceView,
    meta: ExtentMeta,
    queue: Option<DeviceQueueDesc>,
    mark: u64,
    scratch_lba: u64,
    c: u16,
    i: int,
)
    requires
        v.wf(),
        0 <= i < 1024,
    ensures
        extent_created(v, v2, meta, Some(c)) ==> {
            &&& root_holds_new(v, v2, c, 8, 0x2f)
            &&& v2.extents[v2.domains[0][c as int]->0.object_id as int] == meta
            &&& i != v2.domains[0][c as int]->0.object_id ==> v2.extents[i] == v.extents[i]
            &&& v2.devqueues == v.devqueues
        },
        queue_created(v, v2, queue, mark, scratch_lba, Some(c)) ==> {
            let dq = v2.devqueues[v2.domains[0][c as int]->0.object_id as int];
            &&& root_holds_new(v, v2, c, 9, 0x2f)
            &&& queue is Some
            &&& dq.queue == queue->0
            &&& dq.magic == mark
            &&& dq.scratch_lba == scratch_lba
            &&& i != v2.domains[0][c as int]->0.object_id ==> v2.devqueues[i] == v.devqueues[i]
            &&& v2.extents == v.extents
        },
        queue is None ==> !queue_created(v, v2, queue, mark, scratch_lba, Some(c)),
{
    lemma_right_bits();
}

/// Creating fails only where it must: while an object id and a slot of the root are free, the
/// root gets a capability.
pub proof fn law_creating_fails_only_when_full(
    v: SpaceView,
    v2: SpaceView,
    kind: u16,
    rights: u16,
    meta: ExtentMeta,
    queue: DeviceQueueDesc,
    mark: u64,
    scratch_lba: u64,
    id: int,
    slot: int,
)
    requires
        v.wf(),
        0 <= id < 1024,
        !v.objects[id].present,
        v.objects[id].kind.tag != 0xfffe,
        0 <= slot < 256,
        v.domains[0][slot] is None,
    ensures
        !created(v, v2, kind, rights, None),
        !extent_created(v, v2, meta, None),
        !queue_created(v, v2, Some(queue), mark, scratch_lba, None),
{
}

/// What the root delegates is a capability to the same object, with the rights that both the
/// root's capability and the mask have, in the lowest slot of the other domain that was free;
/// nothing else has changed. The root keeps its own.
pub proof fn law_domain_holds_what_was_delegated(
    v: SpaceView,
    v2: SpaceView,
    dst: int,
    src_cptr: u16,
    mask: Rights,
    badge: u16,
    c: u16,
    d: int,
    i: int,
)
    requires
        v.wf(),
        root_delegated(v, v2, dst, src_cptr, mask, badge, Some(c)),
        0 <= d < 6,
        0 <= i < 256,
    ensures
        ({
            let was = v.domains[0][src_cptr as int]->0;
            let now = v2.domains[dst][c as int]->0;
            &&& 1 <= dst < 6
            &&& c < 256
            &&& v.domains[0][src_cptr as int] is Some
            &&& was.rights.bits & 0x08 == 0x08
            &&& v.domains[dst][c as int] is None
            &&& d == dst && v.domains[d][i] is None ==> c <= i
            &&& v2.domains[dst][c as int] is Some
            &&& now.object_id == was.object_id
            &&& now.epoch == was.epoch
            &&& now.type_tag == was.type_tag
            &&& now.rights.bits == was.rights.bits & mask.bits
            &&& now.badge == badge
            &&& !(d == dst && i == c) ==> v2.domains[d][i] == v.domains[d][i]
            &&& v2.objects == v.objects
            &&& v2.notify == v.notify
            &&& v2.endpoints == v.endpoints
            &&& v2.extents == v.extents
            &&& v2.devqueues == v.devqueues
            &&& v2.maps == v.maps
            &&& v2.current == v.current
        }),
{
    lemma_right_bits();
}

/// Delegating fails only where it must: a valid capability of the root that may be delegated
/// is, to any domain but the root that has a free slot. If it fails nothing changes.
pub proof fn law_delegating_fails_only_when_refused(
    v: SpaceView,
    v2: SpaceView,
    dst: int,
    src_cptr: u16,
    mask: Rights,
    badge: u16,
    slot: int,
)
    requires
        v.wf(),
        root_delegated(v, v2, dst, src_cptr, mask, badge, None),
    ensures
        v2 == v,
        1 <= dst < 6 && 0 <= slot < 256 && v.domains[dst][slot] is None
            && v.domains[0][src_cptr as int]->0.rights.bits & 0x08 == 0x08
            ==> crate::table::slot_status(v.domains[0], v.objects, src_cptr) != Status::Success,
{
    lemma_right_bits();
}

/// Where the pages of a plan come to stand, and how. A queue takes five pages: the
/// descriptors, the ring of what is available, the ring of what is used, which is not to be
/// written, the buffer, and the doorbell, which alone is not cached. An extent takes one page
/// that is not to be written.
pub proof fn law_pages_of_a_plan(q: DeviceQueueDesc, frame: u64, n: int, i: int)
    requires
        0 <= i < n <= 5,
    ensures
        ({
            let p = plan_pages(MapPlan::Queue(q));
            &&& p.len() == 5
            &&& p[0].phys == q.desc_phys
            &&& p[1].phys == q.avail_phys
            &&& p[2].phys == q.used_phys
            &&& p[3].phys == q.buf_phys
            &&& p[4].phys == q.doorbell_phys
            &&& p[i].va == 0x100_0000 + i * 0x1000
            &&& p[i].writable <==> i != 2
            &&& p[i].no_cache <==> i == 4
            &&& !p[i].executable
            &&& plan_base(MapPlan::Queue(q)) == 0x100_0000
            &&& plan_vas(MapPlan::Queue(q), n).len() == n
            &&& plan_vas(MapPlan::Queue(q), n)[i] == 0x100_0000 + i * 0x1000
        }),
        ({
            let p = plan_pages(MapPlan::Extent(frame));
            &&& p.len() == 1
            &&& p[0].phys == frame
            &&& p[0].va == 0x110_0000
            &&& !p[0].writable
            &&& !p[0].executable
            &&& !p[0].no_cache
            &&& plan_base(MapPlan::Extent(frame)) == 0x110_0000
            &&& plan_vas(MapPlan::Extent(frame), 1) == seq![0x110_0000u64]
            &&& plan_vas(MapPlan::Extent(frame), 0).len() == 0
        }),
{
    assert(plan_vas(MapPlan::Extent(frame), 1) =~= seq![0x110_0000u64]);
}

/// The death of a task takes nothing from the others: an endpoint on which another task waits
/// is as before, and so are the pages of the other domains, the notifications, the extents and
/// the queues. An endpoint on which the task waited is free.
pub proof fn law_others_survive_a_death(v: SpaceView, domain: u16, task: u16, other: int, i: int)
    requires
        v.wf(),
        0 <= other < 6,
        other != domain,
        0 <= i < 1024,
    ensures
        ({
            let w = reaped(v, domain, task);
            let ep = v.endpoints[i];
            &&& w.maps[other] == v.maps[other]
            &&& w.domains[other] == v.domains[other]
            &&& ep.state == EpState::Idle || ep.peer_task != task ==> w.endpoints[i] == ep
            &&& ep.state != EpState::Idle && ep.peer_task == task ==> w.endpoints[i].state
                == EpState::Idle
            &&& w.notify == v.notify
            &&& w.extents == v.extents
            &&& w.devqueues == v.devqueues
            &&& w.objects == v.objects
            &&& w.current == v.current
            &&& w.endpoints.len() == 1024
            &&& domain < 6 ==> w.domains[domain as int].len() == 256 && w.maps[domain as int].len()
                == 0
        }),
{
}

/// Who is admitted to the run queue: whoever holds a valid root capability to a time slice
/// that may be invoked.
pub proof fn law_who_is_admitted(v: SpaceView, cptr: u16)
    requires
        v.wf(),
    ensures
        ({
            let e = v.domains[0][cptr as int]->0;
            let resolved = resolve_status(v, 0, cptr);
            &&& admit_status(v, cptr) == Status::Success <==> resolved == Status::Success
                && e.type_tag.tag == 7
            &&& admit_status(v, cptr) == if resolved == Status::Success && e.type_tag.tag != 7 {
                Status::ErrType
            } else {
                resolved
            }
        }),
{
}

/// Revoking an object changes its epoch and nothing else in the space.
pub proof fn law_revoking_touches_one_object(v: SpaceView, id: u64, i: int)
    requires
        v.wf(),
        id < 1024,
        0 <= i < 1024,
    ensures
        ({
            let w = with_revoked(v, id);
            &&& i != id ==> w.objects[i] == v.objects[i]
            &&& v.objects[id as int].current_epoch < 0xffff_ffff ==> w.objects[id as int]
                == (ObjectMeta {
                current_epoch: (v.objects[id as int].current_epoch + 1) as u32,
                ..v.objects[id as int]
            })
            &&& w.domains == v.domains
            &&& w.notify == v.notify
            &&& w.endpoints == v.endpoints
            &&& w.extents == v.extents
            &&& w.devqueues == v.devqueues
            &&& w.maps == v.maps
            &&& w.current == v.current
        }),
{
}

/// In an empty space nobody waits, no extent has a place and no queue was set up.
pub proof fn law_empty_data()
    ensures
        ep_empty().state == EpState::Idle,
        ext_empty().lba == 0,
        ext_empty().len == 0,
        ext_empty().hash == 0,
        ext_empty().data_frame_phys == 0,
        dq_empty().queue.buf_phys == 0,
        dq_empty().queue.qsize == 0,
        dq_empty().magic == 0,
{
}

} // verus!
