//! What the kernel shows of itself when it starts: short runs of capability operations,
//! each with the outcome it must have.
use crate::capability::{ObjectKind, Rights};
use crate::capspace::{
    admit_check, cap_invoke, cap_invoke_in, cap_invoke_ipc, create_device_queue, create_endpoint,
    create_notification, delegate_from_root, demo_revoke_then_invoke, init_root, mint_extent,
    mint_extent_mapped, mint_timeslice, revoke_timeslice, set_current_domain, CapSpace,
    DeviceQueueDesc, Invoked, IpcOutcome, DQ_MAP, E_SEND, M_ALLOC, M_FREE, N_POLL, N_SIGNAL, X_MAP,
    X_READ, X_WRITE,
};
use crate::memory::Memory;
use crate::objstore::{wr_u64, SECTOR_SIZE};
use crate::table::Status;
use vstd::prelude::*;

verus! {

/// The domain that receives delegated capabilities.
pub const DEMO_DOMAIN: usize = 2;

/// The domain for what is to be refused.
pub const NEGATIVE_DOMAIN: usize = 3;

/// The domains of the two tasks that talk over an endpoint.
pub const CLIENT_DOMAIN: usize = 1;

pub const SERVER_DOMAIN: usize = 2;

/// The domain of the driver that has the disk's queue to itself.
pub const DRIVER_DOMAIN: usize = 5;

/// What the driver is to read, and the sector it reads it from, far from the store.
pub const DQ_MAGIC: u64 = 0xCA17_07D0_DEAD_0007;

pub const DQ_SCRATCH_LBA: u64 = 32_700;

/// A frame number that no caller may free.
pub const FOREIGN_FRAME: u64 = 0x100;

/// The bits that are signalled.
pub const DEMO_BITS: u64 = 0b101;

/// The rights to invoke and write, but not read.
pub const SIGNAL_ONLY: u16 = 0x06;

/// The rights to invoke and grant.
pub const INVOKE_AND_GRANT: u16 = 0x44;

/// The rights to invoke and hand on.
pub const INVOKE_AND_DELEGATE: u16 = 0x0c;

/// The rights to invoke and read.
pub const INVOKE_AND_READ: u16 = 0x05;

/// The rights to invoke, read and write, and those with the right to map.
pub const QUEUE_IO: u16 = 0x07;

pub const QUEUE_IO_AND_MAP: u16 = 0x27;

/// There is room for one more object, and for a capability to it in the root and in another
/// domain.
pub open spec fn has_room(v: crate::capspace::SpaceView, domain: int) -> bool {
    &&& !crate::table::objects_taken_below(
        v.objects,
        crate::table::OBJECT_TABLE_SIZE as int,
    )
    &&& !crate::table::slots_taken_below(v.domains[0], crate::table::CAP_TABLE_SLOTS as int)
    &&& !crate::table::slots_taken_below(
        v.domains[domain],
        crate::table::CAP_TABLE_SLOTS as int,
    )
}

/// Delegating a capability of the root, if there is one, to a domain.
pub open spec fn delegated_if(
    v: crate::capspace::SpaceView,
    v2: crate::capspace::SpaceView,
    domain: int,
    src: Option<u16>,
    mask: u16,
    r: Option<u16>,
) -> bool {
    match src {
        Some(c) => crate::capspace::root_delegated(v, v2, domain, c, Rights::of(mask), 0, r),
        None => v2 == v && r is None,
    }
}

/// Delegates a capability of the root, if there is one, to a domain.
fn delegate_if(cs: &mut CapSpace, domain: usize, src: Option<u16>, mask: u16) -> (r: Option<u16>)
    ensures
        delegated_if(old(cs)@, final(cs)@, domain as int, src, mask, r),
{
    match src {
        Some(c) => delegate_from_root(cs, domain, c, Rights::from_bits_truncate(mask), 0),
        None => None,
    }
}

/// Creating an object and a capability to it for the root, and delegating it to a domain.
pub open spec fn created_for(
    v: crate::capspace::SpaceView,
    v2: crate::capspace::SpaceView,
    kind: u16,
    rights: u16,
    domain: int,
    mask: u16,
    root: Option<u16>,
    r: Option<u16>,
) -> bool {
    exists|v1: crate::capspace::SpaceView| #[trigger]
        crate::capspace::created(v, v1, kind, rights, root) && delegated_if(
            v1,
            v2,
            domain,
            root,
            mask,
            r,
        )
}

/// Bit facts about the rights used here.
proof fn lemma_rights()
    by (bit_vector)
    ensures
        0x04u16 & 0xFF == 0x04,
        0x08u16 & 0xFF == 0x08,
        0x01u16 & 0xFF == 0x01,
        0x02u16 & 0xFF == 0x02,
        0x40u16 & 0xFF == 0x40,
        0u16 & 0xFF == 0,
        0x06u16 & 0xFF == 0x06,
        0x2fu16 & 0xFF == 0x2f,
        0x0fu16 & 0xFF == 0x0f,
        0x4fu16 & 0xFF == 0x4f,
        0x2fu16 & 0x04 == 0x04,
        0x2fu16 & 0x08 == 0x08,
        0x2fu16 & 0x01 == 0x01,
        0x0fu16 & 0x01 == 0x01,
        0x0fu16 & 0x04 == 0x04,
        0x0fu16 & 0x08 == 0x08,
        0x0fu16 & 0x06 == 0x06,
        0x4fu16 & 0x04 == 0x04,
        0x4fu16 & 0x08 == 0x08,
        0x2fu16 & 0x06 == 0x06,
        0x04u16 & 0x04 == 0x04,
        0x04u16 & 0x40 == 0,
        0x04u16 & 0u16 == 0,
        0x06u16 & 0x04 == 0x04,
        0x06u16 & 0x02 == 0x02,
        0x06u16 & 0x01 == 0,
        0x2fu16 & 0 == 0,
{
}

/// Two allocations, a free that must be refused, and a revocation.
#[derive(Clone, Copy, Debug, PartialEq, Eq)]
pub struct CapabilityDemo {
    pub cptr: u16,
    pub first: (Status, u64),
    pub second: (Status, u64),
    pub free: Status,
    pub revoked: Status,
}

/// The status and the reply of an invocation that is answered at once. One that is not
/// counts as not understood.
pub open spec fn answer_of(r: Invoked) -> (Status, u64) {
    match r {
        Invoked::Done(status, reply) => (status, reply),
        _ => (Status::ErrMethod, 0),
    }
}

/// The status and the reply of an invocation that is answered at once.
fn answer(r: Invoked) -> (a: (Status, u64))
    ensures
        a == answer_of(r),
{
    match r {
        Invoked::Done(status, reply) => (status, reply),
        _ => (Status::ErrMethod, 0),
    }
}

/// What an allocation by invocation answers and does.
pub open spec fn allocated(mem: Memory, mem2: Memory, a: (Status, u64)) -> bool {
    if mem.frames() == Set::<int>::empty() {
        a == (Status::ErrRights, 0u64) && mem2 == mem
    } else {
        a.0 == Status::Success && crate::memory::takes_lowest(
            mem.frames(),
            a.1 as int,
            mem2.frames(),
        )
    }
}

/// Creates a memory object and allocates twice through a capability to it. Freeing is
/// refused, and after the object is revoked the capability is worth nothing.
pub fn capability_demo(cs: &mut CapSpace, mem: &mut Memory) -> (r: Option<CapabilityDemo>)
    requires
        old(mem).wf(),
        old(cs)@.current == 0,
    ensures
        final(mem).wf(),
        match r {
            Some(d) => {
                &&& exists|v: crate::capspace::SpaceView|
                    {
                        &&& #[trigger] crate::capspace::created(
                            old(cs)@,
                            v,
                            ObjectKind::MEMORY,
                            crate::capspace::ROOT_MEMORY_RIGHTS,
                            Some(d.cptr),
                        )
                        &&& final(cs)@ == crate::capspace::with_revoked(
                            v,
                            v.domains[0][d.cptr as int]->0.object_id,
                        )
                    }
                &&& exists|between: Memory| #[trigger]
                    allocated(*old(mem), between, d.first) && allocated(
                        between,
                        *final(mem),
                        d.second,
                    )
                &&& d.free == Status::ErrMethod
                &&& d.revoked == Status::ErrRevoked
            },
            None => {
                &&& *final(mem) == *old(mem)
                &&& crate::capspace::created(
                    old(cs)@,
                    final(cs)@,
                    ObjectKind::MEMORY,
                    crate::capspace::ROOT_MEMORY_RIGHTS,
                    None,
                )
            },
        },
{
    let cptr = match init_root(cs) {
        Some(c) => c,
        None => {
            return None;
        },
    };
    let ghost v = cs@;
    proof {
        lemma_rights();
    }
    let first = answer(cap_invoke(cs, mem, cptr, M_ALLOC, 0));
    let ghost between = *mem;
    let second = answer(cap_invoke(cs, mem, cptr, M_ALLOC, 0));
    let (free, _) = answer(cap_invoke(cs, mem, cptr, M_FREE, FOREIGN_FRAME));
    let revoked = demo_revoke_then_invoke(cs, mem, cptr);
    let d = CapabilityDemo { cptr, first, second, free, revoked };
    proof {
        assert(allocated(*old(mem), between, d.first) && allocated(between, *mem, d.second));
        assert(crate::capspace::created(
            old(cs)@,
            v,
            ObjectKind::MEMORY,
            crate::capspace::ROOT_MEMORY_RIGHTS,
            Some(d.cptr),
        ));
        assert(cs@ == crate::capspace::with_revoked(
            v,
            v.domains[0][d.cptr as int]->0.object_id,
        ));
    }
    Some(d)
}

/// An allocation through a delegated capability, and the answer to the root's capability
/// pointer in the other domain.
#[derive(Clone, Copy, Debug, PartialEq, Eq)]
pub struct DomainDemo {
    pub root_cptr: u16,
    pub cptr: u16,
    pub delegated: (Status, u64),
    pub foreign: Status,
}

/// Delegates a memory capability that may only be invoked, and uses it in the other domain.
/// The root's capability pointer means nothing there: if that slot of the other domain is
/// free, it names nothing.
pub fn domain_demo(cs: &mut CapSpace, mem: &mut Memory) -> (r: Option<DomainDemo>)
    requires
        old(mem).wf(),
    ensures
        final(mem).wf(),
        match r {
            Some(d) => {
                &&& exists|v: crate::capspace::SpaceView, between: Memory, r2: Invoked|
                    {
                        &&& created_for(
                            old(cs)@,
                            v,
                            ObjectKind::MEMORY,
                            crate::capspace::ROOT_MEMORY_RIGHTS,
                            DEMO_DOMAIN as int,
                            Rights::INVOKE,
                            Some(d.root_cptr),
                            Some(d.cptr),
                        )
                        &&& allocated(*old(mem), between, d.delegated)
                        &&& #[trigger] crate::capspace::invoked_in(
                            v,
                            between,
                            final(cs)@,
                            *final(mem),
                            DEMO_DOMAIN as int,
                            d.root_cptr,
                            M_ALLOC,
                            0,
                            r2,
                        )
                        &&& d.foreign == answer_of(r2).0
                    }
                &&& old(cs)@.domains[DEMO_DOMAIN as int][d.root_cptr as int] is None
                    && d.root_cptr != d.cptr ==> d.foreign == Status::ErrBadCPtr
            },
            None => {
                &&& *final(mem) == *old(mem)
                &&& exists|root: Option<u16>| #[trigger]
                    created_for(
                        old(cs)@,
                        final(cs)@,
                        ObjectKind::MEMORY,
                        crate::capspace::ROOT_MEMORY_RIGHTS,
                        DEMO_DOMAIN as int,
                        Rights::INVOKE,
                        root,
                        None,
                    )
            },
        },
{
    proof {
        lemma_rights();
    }
    let root = init_root(cs);
    let ghost v1 = cs@;
    let delegated_cptr = delegate_if(cs, DEMO_DOMAIN, root, Rights::INVOKE);
    let ghost v = cs@;
    assert(crate::capspace::created(
        old(cs)@,
        v1,
        ObjectKind::MEMORY,
        crate::capspace::ROOT_MEMORY_RIGHTS,
        root,
    ));
    assert(created_for(
        old(cs)@,
        v,
        ObjectKind::MEMORY,
        crate::capspace::ROOT_MEMORY_RIGHTS,
        DEMO_DOMAIN as int,
        Rights::INVOKE,
        root,
        delegated_cptr,
    ));
    match (root, delegated_cptr) {
        (Some(root_cptr), Some(cptr)) => {
            let delegated = answer(cap_invoke_in(cs, mem, DEMO_DOMAIN, cptr, M_ALLOC, 0));
            let ghost between = *mem;
            let again = cap_invoke_in(cs, mem, DEMO_DOMAIN, root_cptr, M_ALLOC, 0);
            let (foreign, _) = answer(again);
            let d = DomainDemo { root_cptr, cptr, delegated, foreign };
            proof {
                assert(allocated(*old(mem), between, d.delegated));
                assert(crate::capspace::invoked_in(
                    v,
                    between,
                    cs@,
                    *mem,
                    DEMO_DOMAIN as int,
                    d.root_cptr,
                    M_ALLOC,
                    0,
                    again,
                ));
            }
            Some(d)
        },
        _ => None,
    }
}

/// A signal from one domain and two polls by another, with a poll that must be refused.
#[derive(Clone, Copy, Debug, PartialEq, Eq)]
pub struct NotifyDemo {
    pub signal: Status,
    pub denied: Status,
    pub first: (Status, u64),
    pub second: (Status, u64),
}

/// Delegates a capability that may signal but not poll. The bits that it raises are found
/// by the root once; a poll through it is refused. Afterwards no bits are pending.
pub fn notify_demo(cs: &mut CapSpace, mem: &mut Memory) -> (r: Option<NotifyDemo>)
    requires
        old(mem).wf(),
    ensures
        *final(mem) == *old(mem),
        r is Some <==> has_room(old(cs)@, DEMO_DOMAIN as int),
        exists|v: crate::capspace::SpaceView, root: Option<u16>, cptr: Option<u16>|
            {
                &&& #[trigger] created_for(
                    old(cs)@,
                    v,
                    ObjectKind::NOTIFICATION,
                    crate::capspace::NOTIFICATION_RIGHTS,
                    DEMO_DOMAIN as int,
                    SIGNAL_ONLY,
                    root,
                    cptr,
                )
                &&& match r {
                    Some(d) => {
                        let id = v.domains[0][root->0 as int]->0.object_id as int;
                        &&& cptr is Some
                        &&& d.signal == Status::Success
                        &&& d.denied == Status::ErrRights
                        &&& d.first == (Status::Success, old(cs)@.notify[id] | DEMO_BITS)
                        &&& d.second == (Status::Success, 0u64)
                        &&& final(cs)@ == (crate::capspace::SpaceView {
                            notify: v.notify.update(id, 0),
                            ..v
                        })
                    },
                    None => cptr is None && final(cs)@ == v,
                }
            },
{
    proof {
        lemma_rights();
    }
    let root_cptr = create_notification(cs);
    let ghost v1 = cs@;
    let signaller = delegate_if(cs, DEMO_DOMAIN, root_cptr, SIGNAL_ONLY);
    let ghost v = cs@;
    assert(crate::capspace::created(
        old(cs)@,
        v1,
        ObjectKind::NOTIFICATION,
        crate::capspace::NOTIFICATION_RIGHTS,
        root_cptr,
    ));
    assert(created_for(
        old(cs)@,
        v,
        ObjectKind::NOTIFICATION,
        crate::capspace::NOTIFICATION_RIGHTS,
        DEMO_DOMAIN as int,
        SIGNAL_ONLY,
        root_cptr,
        signaller,
    ));
    match (root_cptr, signaller) {
        (Some(root), Some(cptr)) => {
            let (signal, _) = answer(
                cap_invoke_in(cs, mem, DEMO_DOMAIN, cptr, N_SIGNAL, DEMO_BITS),
            );
            let (denied, _) = answer(cap_invoke_in(cs, mem, DEMO_DOMAIN, cptr, N_POLL, 0));
            let first = answer(cap_invoke_in(cs, mem, 0, root, N_POLL, 0));
            let second = answer(cap_invoke_in(cs, mem, 0, root, N_POLL, 0));
            proof {
                let id = v.domains[0][root as int]->0.object_id as int;
                assert(cs@ =~= (crate::capspace::SpaceView {
                    notify: v.notify.update(id, 0),
                    ..v
                }));
            }
            Some(NotifyDemo { signal, denied, first, second })
        },
        _ => None,
    }
}

/// Sending a capability over an endpoint that may not grant. The answer is `ErrRights`, at
/// once, and the root domain runs again afterwards. Nothing else has changed but for the
/// endpoint and the capabilities to it.
pub fn grant_gate_demo(cs: &mut CapSpace, mem: &mut Memory, task: u16) -> (r: Option<Status>)
    requires
        old(mem).wf(),
    ensures
        *final(mem) == *old(mem),
        r is Some <==> has_room(old(cs)@, NEGATIVE_DOMAIN as int),
        exists|v: crate::capspace::SpaceView, root: Option<u16>, cptr: Option<u16>|
            {
                &&& #[trigger] created_for(
                    old(cs)@,
                    v,
                    ObjectKind::ENDPOINT,
                    crate::capspace::ENDPOINT_RIGHTS,
                    NEGATIVE_DOMAIN as int,
                    Rights::INVOKE,
                    root,
                    cptr,
                )
                &&& match r {
                    Some(status) => {
                        &&& cptr is Some
                        &&& status == Status::ErrRights
                        &&& final(cs)@ == (crate::capspace::SpaceView { current: 0, ..v })
                    },
                    None => cptr is None && final(cs)@ == v,
                }
            },
{
    proof {
        lemma_rights();
    }
    let ep = create_endpoint(cs);
    let ghost v1 = cs@;
    let invoker = delegate_if(cs, NEGATIVE_DOMAIN, ep, Rights::INVOKE);
    let ghost v = cs@;
    assert(crate::capspace::created(
        old(cs)@,
        v1,
        ObjectKind::ENDPOINT,
        crate::capspace::ENDPOINT_RIGHTS,
        ep,
    ));
    assert(created_for(
        old(cs)@,
        v,
        ObjectKind::ENDPOINT,
        crate::capspace::ENDPOINT_RIGHTS,
        NEGATIVE_DOMAIN as int,
        Rights::INVOKE,
        ep,
        invoker,
    ));
    let cptr = match invoker {
        Some(c) => c,
        None => {
            return None;
        },
    };
    set_current_domain(cs, NEGATIVE_DOMAIN as u16);
    let outcome = cap_invoke_ipc(cs, mem, task, cptr, E_SEND, 0xBEEF, 5);
    set_current_domain(cs, 0);
    match outcome {
        IpcOutcome::Done(status, _, _) => Some(status),
        _ => None,
    }
}

/// Asking for admission with a time slice that was revoked. The answer is `ErrRevoked`.
pub fn revoked_time_demo(cs: &mut CapSpace) -> (r: Option<Status>)
    ensures
        r is Some <==> has_room(old(cs)@, 0),
        exists|v: crate::capspace::SpaceView, cptr: Option<u16>|
            {
                &&& #[trigger] crate::capspace::created(
                    old(cs)@,
                    v,
                    ObjectKind::TIME_SLICE,
                    Rights::INVOKE,
                    cptr,
                )
                &&& match r {
                    Some(status) => {
                        &&& cptr is Some
                        &&& status == Status::ErrRevoked
                        &&& final(cs)@ == crate::capspace::with_revoked(
                            v,
                            v.domains[0][cptr->0 as int]->0.object_id,
                        )
                    },
                    None => cptr is None && final(cs)@ == v,
                }
            },
{
    proof {
        lemma_rights();
    }
    let minted = mint_timeslice(cs);
    assert(crate::capspace::created(
        old(cs)@,
        cs@,
        ObjectKind::TIME_SLICE,
        Rights::INVOKE,
        minted,
    ));
    match minted {
        Some(c) => {
            let _ = revoke_timeslice(cs, c);
            Some(admit_check(cs, c))
        },
        None => None,
    }
}

/// The answers to reading and writing a stored extent.
#[derive(Clone, Copy, Debug, PartialEq, Eq)]
pub struct ExtentDemo {
    pub cptr: u16,
    pub read: (Status, u64),
    /// The same through a delegated capability without the right to read, and a write, if
    /// it could be delegated.
    pub masked: Option<(Status, Status)>,
}

/// Names a stored extent by a capability and reads its content hash through it. Through a
/// capability that may not be read the hash is refused, and writing is no method.
pub fn extent_demo(cs: &mut CapSpace, mem: &mut Memory, lba: u64, len: u32, hash: u64) -> (r: Option<
    ExtentDemo,
>)
    requires
        old(mem).wf(),
        old(cs)@.current == 0,
    ensures
        *final(mem) == *old(mem),
        r is Some <==> has_room(old(cs)@, 0),
        exists|
            v: crate::capspace::SpaceView,
            cptr: Option<u16>,
            masked: Option<u16>,
        |
            {
                &&& #[trigger] crate::capspace::extent_created(
                    old(cs)@,
                    v,
                    crate::capspace::ExtentMeta { lba, len, hash, data_frame_phys: 0 },
                    cptr,
                )
                &&& #[trigger] delegated_if(
                    v,
                    final(cs)@,
                    NEGATIVE_DOMAIN as int,
                    cptr,
                    SIGNAL_ONLY,
                    masked,
                )
                &&& match r {
                    Some(d) => {
                        &&& cptr == Some(d.cptr)
                        &&& d.read == (Status::Success, hash)
                        &&& d.masked == if masked is Some {
                            Some((Status::ErrRights, Status::ErrMethod))
                        } else {
                            None
                        }
                    },
                    None => cptr is None,
                }
            },
{
    proof {
        lemma_rights();
    }
    let minted = mint_extent(cs, lba, len, hash);
    let ghost v = cs@;
    assert(crate::capspace::extent_created(
        old(cs)@,
        v,
        crate::capspace::ExtentMeta { lba, len, hash, data_frame_phys: 0 },
        minted,
    ));
    let cptr = match minted {
        Some(c) => c,
        None => {
            assert(delegated_if(v, cs@, NEGATIVE_DOMAIN as int, minted, SIGNAL_ONLY, None));
            return None;
        },
    };
    let read = answer(cap_invoke(cs, mem, cptr, X_READ, 0));
    assert(cs@ == v);
    let masked_cptr = delegate_if(cs, NEGATIVE_DOMAIN, minted, SIGNAL_ONLY);
    assert(delegated_if(v, cs@, NEGATIVE_DOMAIN as int, minted, SIGNAL_ONLY, masked_cptr));
    let masked = match masked_cptr {
        Some(c) => {
            let (no_read, _) = answer(cap_invoke_in(cs, mem, NEGATIVE_DOMAIN, c, X_READ, 0));
            let (write, _) = answer(cap_invoke_in(cs, mem, NEGATIVE_DOMAIN, c, X_WRITE, 0));
            Some((no_read, write))
        },
        None => None,
    };
    Some(ExtentDemo { cptr, read, masked })
}

/// The capabilities of a client and a server that share an endpoint, as far as they could
/// be given.
#[derive(Clone, Copy, Debug, PartialEq, Eq)]
pub struct IpcSetup {
    pub server_endpoint: Option<u16>,
    pub client_endpoint: Option<u16>,
    pub client_memory: Option<u16>,
}

/// Setting a client and a server up: an endpoint for both, over which the client may also
/// grant, and a memory object that the client may hand on. What was not created is not
/// delegated; the rest is tried nevertheless.
pub open spec fn ipc_prepared(
    v: crate::capspace::SpaceView,
    v2: crate::capspace::SpaceView,
    r: IpcSetup,
) -> bool {
    exists|
        ep: Option<u16>,
        memory: Option<u16>,
        v_ep: crate::capspace::SpaceView,
        v_client: crate::capspace::SpaceView,
        v_server: crate::capspace::SpaceView,
        v_mem: crate::capspace::SpaceView,
    |
        {
            &&& #[trigger] crate::capspace::created(
                v,
                v_ep,
                ObjectKind::ENDPOINT,
                crate::capspace::ENDPOINT_RIGHTS,
                ep,
            )
            &&& #[trigger] delegated_if(
                v_ep,
                v_client,
                CLIENT_DOMAIN as int,
                ep,
                INVOKE_AND_GRANT,
                r.client_endpoint,
            )
            &&& #[trigger] delegated_if(
                v_client,
                v_server,
                SERVER_DOMAIN as int,
                ep,
                Rights::INVOKE,
                r.server_endpoint,
            )
            &&& #[trigger] crate::capspace::created(
                v_server,
                v_mem,
                ObjectKind::MEMORY,
                crate::capspace::ROOT_MEMORY_RIGHTS,
                memory,
            )
            &&& delegated_if(
                v_mem,
                v2,
                CLIENT_DOMAIN as int,
                memory,
                INVOKE_AND_DELEGATE,
                r.client_memory,
            )
        }
}

/// Sets a client and a server up. With all of it given, the client and the server can talk,
/// and the client has something to hand over.
pub fn ipc_setup(cs: &mut CapSpace) -> (r: IpcSetup)
    ensures
        ipc_prepared(old(cs)@, final(cs)@, r),
        r.client_endpoint is Some && r.server_endpoint is Some && r.client_memory is Some ==> {
            let v = final(cs)@;
            let client = v.domains[CLIENT_DOMAIN as int];
            let server = v.domains[SERVER_DOMAIN as int];
            let ce = r.client_endpoint->0;
            let se = r.server_endpoint->0;
            let cm = r.client_memory->0;
            &&& crate::table::slot_status(client, v.objects, ce) == Status::Success
            &&& crate::table::slot_status(server, v.objects, se) == Status::Success
            &&& crate::table::slot_status(client, v.objects, cm) == Status::Success
            &&& client[ce as int]->0.object_id == server[se as int]->0.object_id
            &&& client[ce as int]->0.rights.bits == INVOKE_AND_GRANT
            &&& server[se as int]->0.rights.bits == Rights::INVOKE
            &&& client[cm as int]->0.rights.bits == INVOKE_AND_DELEGATE
            &&& client[cm as int]->0.type_tag.tag == ObjectKind::MEMORY
            &&& client[ce as int]->0.type_tag.tag == ObjectKind::ENDPOINT
        },
{
    proof {
        lemma_rights();
        lemma_setup_rights();
    }
    let ep = create_endpoint(cs);
    let ghost v_ep = cs@;
    let client_endpoint = delegate_if(cs, CLIENT_DOMAIN, ep, INVOKE_AND_GRANT);
    let ghost v_client = cs@;
    let server_endpoint = delegate_if(cs, SERVER_DOMAIN, ep, Rights::INVOKE);
    let ghost v_server = cs@;
    let memory = init_root(cs);
    let ghost v_mem = cs@;
    let client_memory = delegate_if(cs, CLIENT_DOMAIN, memory, INVOKE_AND_DELEGATE);
    let r = IpcSetup { server_endpoint, client_endpoint, client_memory };
    proof {
        assert(crate::capspace::created(
            old(cs)@,
            v_ep,
            ObjectKind::ENDPOINT,
            crate::capspace::ENDPOINT_RIGHTS,
            ep,
        ));
        assert(delegated_if(
            v_ep,
            v_client,
            CLIENT_DOMAIN as int,
            ep,
            INVOKE_AND_GRANT,
            r.client_endpoint,
        ));
        assert(delegated_if(
            v_client,
            v_server,
            SERVER_DOMAIN as int,
            ep,
            Rights::INVOKE,
            r.server_endpoint,
        ));
        assert(crate::capspace::created(
            v_server,
            v_mem,
            ObjectKind::MEMORY,
            crate::capspace::ROOT_MEMORY_RIGHTS,
            memory,
        ));
        assert(ipc_prepared(old(cs)@, cs@, r));
    }
    r
}

/// Bit facts about the rights of the client and the server.
proof fn lemma_setup_rights()
    by (bit_vector)
    ensures
        0x44u16 & 0xFF == 0x44,
        0x4fu16 & 0x44 == 0x44,
        0x0cu16 & 0xFF == 0x0c,
        0x2fu16 & 0x0c == 0x0c,
{
}

/// Bit facts about the rights to map and not to map.
proof fn lemma_map_rights()
    by (bit_vector)
    ensures
        0x05u16 & 0xFF == 0x05,
        0x07u16 & 0xFF == 0x07,
        0x27u16 & 0xFF == 0x27,
        0x20u16 & 0xFF == 0x20,
        0x2fu16 & 0x05 == 0x05,
        0x2fu16 & 0x07 == 0x07,
        0x2fu16 & 0x27 == 0x27,
        0x05u16 & 0x04 == 0x04,
        0x07u16 & 0x04 == 0x04,
        0x27u16 & 0x04 == 0x04,
        0x05u16 & 0x20 == 0,
        0x07u16 & 0x20 == 0,
        0x27u16 & 0x20 == 0x20,
{
}

/// A stored extent that can be mapped, and the answer to mapping it through a capability
/// without the right to map, if that could be delegated.
#[derive(Clone, Copy, Debug, PartialEq, Eq)]
pub struct MappedExtentDemo {
    pub cptr: u16,
    pub denied: Option<Status>,
}

/// Names a stored extent that was loaded to a frame by a capability. Through a copy that may
/// be invoked and read only, mapping it is refused.
pub fn mapped_extent_demo(
    cs: &mut CapSpace,
    mem: &mut Memory,
    lba: u64,
    len: u32,
    hash: u64,
    data_frame_phys: u64,
) -> (r: Option<MappedExtentDemo>)
    requires
        old(mem).wf(),
    ensures
        *final(mem) == *old(mem),
        r is Some <==> has_room(old(cs)@, 0),
        exists|
            v: crate::capspace::SpaceView,
            cptr: Option<u16>,
            masked: Option<u16>,
        |
            {
                &&& #[trigger] crate::capspace::extent_created(
                    old(cs)@,
                    v,
                    crate::capspace::ExtentMeta { lba, len, hash, data_frame_phys },
                    cptr,
                )
                &&& #[trigger] delegated_if(
                    v,
                    final(cs)@,
                    NEGATIVE_DOMAIN as int,
                    cptr,
                    INVOKE_AND_READ,
                    masked,
                )
                &&& match r {
                    Some(d) => {
                        &&& cptr == Some(d.cptr)
                        &&& d.denied == if masked is Some {
                            Some(Status::ErrRights)
                        } else {
                            None
                        }
                    },
                    None => cptr is None,
                }
            },
        r matches Some(d) ==> {
            let v = final(cs)@;
            let e = v.domains[0][d.cptr as int];
            &&& crate::table::slot_status(v.domains[0], v.objects, d.cptr) == Status::Success
            &&& e->0.type_tag.tag == ObjectKind::EXTENT
            &&& e->0.rights.bits == crate::capspace::MAPPABLE_RIGHTS
        },
{
    proof {
        lemma_rights();
        lemma_map_rights();
    }
    let minted = mint_extent_mapped(cs, lba, len, hash, data_frame_phys);
    let ghost v = cs@;
    assert(crate::capspace::extent_created(
        old(cs)@,
        v,
        crate::capspace::ExtentMeta { lba, len, hash, data_frame_phys },
        minted,
    ));
    let masked = delegate_if(cs, NEGATIVE_DOMAIN, minted, INVOKE_AND_READ);
    assert(delegated_if(v, cs@, NEGATIVE_DOMAIN as int, minted, INVOKE_AND_READ, masked));
    let cptr = match minted {
        Some(c) => c,
        None => {
            return None;
        },
    };
    let denied = match masked {
        Some(c) => {
            let (status, _) = answer(cap_invoke_in(cs, mem, NEGATIVE_DOMAIN, c, X_MAP, 0));
            Some(status)
        },
        None => None,
    };
    Some(MappedExtentDemo { cptr, denied })
}

/// What is written to the disk for the driver to read: the sector, and its bytes, which are
/// the mark and zeroes.
pub fn driver_seed() -> (r: (u64, [u8; SECTOR_SIZE]))
    ensures
        r.0 == DQ_SCRATCH_LBA,
        crate::objstore::u64_at(r.1@, 0) == DQ_MAGIC,
        forall|j: int| 8 <= j < SECTOR_SIZE ==> #[trigger] r.1@[j] == 0,
{
    let mut sector: [u8; SECTOR_SIZE] = [0; SECTOR_SIZE];
    wr_u64(&mut sector, 0, DQ_MAGIC);
    (DQ_SCRATCH_LBA, sector)
}

/// The capabilities of the driver, as far as they could be given: the root's to the queue,
/// the driver's, and the answer to mapping the queue through a copy without the right to
/// map.
#[derive(Clone, Copy, Debug, PartialEq, Eq)]
pub struct DriverSetup {
    pub root: Option<u16>,
    pub driver: Option<u16>,
    pub denied: Option<Status>,
}

/// The capability, on a condition.
pub open spec fn only_if(condition: bool, cptr: Option<u16>) -> Option<u16> {
    if condition {
        cptr
    } else {
        None
    }
}

/// Sets the driver up with the disk's queue. Its capability may be invoked, read, written
/// and mapped, and is given only if the sector for it to read was written. Through a copy
/// that may not be mapped, mapping is refused.
pub fn driver_setup(
    cs: &mut CapSpace,
    mem: &mut Memory,
    queue: Option<DeviceQueueDesc>,
    seeded: bool,
) -> (r: DriverSetup)
    requires
        old(mem).wf(),
    ensures
        *final(mem) == *old(mem),
        exists|
            v_root: crate::capspace::SpaceView,
            v_driver: crate::capspace::SpaceView,
            masked: Option<u16>,
        |
            {
                &&& #[trigger] crate::capspace::queue_created(
                    old(cs)@,
                    v_root,
                    queue,
                    DQ_MAGIC,
                    DQ_SCRATCH_LBA,
                    r.root,
                )
                &&& #[trigger] delegated_if(
                    v_root,
                    v_driver,
                    DRIVER_DOMAIN as int,
                    only_if(seeded, r.root),
                    QUEUE_IO_AND_MAP,
                    r.driver,
                )
                &&& #[trigger] delegated_if(
                    v_driver,
                    final(cs)@,
                    NEGATIVE_DOMAIN as int,
                    only_if(seeded, r.root),
                    QUEUE_IO,
                    masked,
                )
                &&& r.denied == if r.driver is Some && masked is Some {
                    Some(Status::ErrRights)
                } else {
                    None
                }
            },
        r.driver matches Some(c) ==> {
            let v = final(cs)@;
            let table = v.domains[DRIVER_DOMAIN as int];
            &&& seeded
            &&& queue is Some
            &&& crate::table::slot_status(table, v.objects, c) == Status::Success
            &&& table[c as int]->0.type_tag.tag == ObjectKind::DEVICE_QUEUE
            &&& table[c as int]->0.rights.bits == QUEUE_IO_AND_MAP
        },
{
    proof {
        lemma_rights();
        lemma_map_rights();
    }
    let root = create_device_queue(cs, queue, DQ_MAGIC, DQ_SCRATCH_LBA);
    let ghost v_root = cs@;
    let src: Option<u16> = if seeded {
        root
    } else {
        None
    };
    let driver = delegate_if(cs, DRIVER_DOMAIN, src, QUEUE_IO_AND_MAP);
    let ghost v_driver = cs@;
    let masked = delegate_if(cs, NEGATIVE_DOMAIN, src, QUEUE_IO);
    let ghost v = cs@;
    assert(crate::capspace::queue_created(
        old(cs)@,
        v_root,
        queue,
        DQ_MAGIC,
        DQ_SCRATCH_LBA,
        root,
    ));
    assert(delegated_if(v_root, v_driver, DRIVER_DOMAIN as int, src, QUEUE_IO_AND_MAP, driver));
    assert(delegated_if(v_driver, v, NEGATIVE_DOMAIN as int, src, QUEUE_IO, masked));
    let denied = match (driver, masked) {
        (Some(_), Some(c)) => {
            let (status, _) = answer(cap_invoke_in(cs, mem, NEGATIVE_DOMAIN, c, DQ_MAP, 0));
            Some(status)
        },
        _ => None,
    };
    DriverSetup { root, driver, denied }
}

/// What a domain holds that an object was created for: a capability to the object of the root's,
/// with the rights of the mask that the root has too. The root keeps its own.
pub proof fn law_domain_holds_what_was_created_for_it(
    v: crate::capspace::SpaceView,
    v2: crate::capspace::SpaceView,
    kind: u16,
    rights: u16,
    domain: int,
    mask: u16,
    root: u16,
    c: u16,
)
    requires
        v.wf(),
        created_for(v, v2, kind, rights, domain, mask, Some(root), Some(c)),
    ensures
        ({
            let own = v2.domains[0][root as int]->0;
            let given = v2.domains[domain][c as int]->0;
            &&& 1 <= domain < 6
            &&& v.domains[0][root as int] is None
            &&& v.domains[domain][c as int] is None
            &&& v2.domains[0][root as int] is Some
            &&& v2.domains[domain][c as int] is Some
            &&& own.type_tag.tag == kind
            &&& own.rights.bits == rights & 0xff
            &&& given.object_id == own.object_id
            &&& given.epoch == own.epoch
            &&& given.type_tag == own.type_tag
            &&& given.rights.bits == (rights & 0xff) & (mask & 0xff)
            &&& given.badge == 0
            &&& !v.objects[own.object_id as int].present
            &&& v2.objects[own.object_id as int].present
            &&& v2.objects[own.object_id as int].kind.tag == kind
        }),
{
}

/// What is not there is not delegated, and what is given on a condition is given only on it.
pub proof fn law_nothing_comes_of_nothing(
    v: crate::capspace::SpaceView,
    v2: crate::capspace::SpaceView,
    domain: int,
    mask: u16,
    r: Option<u16>,
    cptr: Option<u16>,
)
    ensures
        delegated_if(v, v2, domain, None, mask, r) ==> v2 == v && r is None,
        only_if(true, cptr) == cptr,
        only_if(false, cptr) is None,
{
}

/// An answer that is there at once is taken as it is.
pub proof fn law_answer_is_taken_as_it_is(
    status: Status,
    reply: u64,
    plan: crate::capspace::MapPlan,
    lba: u64,
)
    ensures
        answer_of(Invoked::Done(status, reply)) == (status, reply),
        answer_of(Invoked::MapPages(plan)) == (Status::ErrMethod, 0u64),
        answer_of(Invoked::ReadBlock(lba)) == (Status::ErrMethod, 0u64),
{
}

/// An allocation succeeds exactly when a frame is free, and then answers with the lowest.
pub proof fn law_allocation_answers_the_lowest_frame(
    mem: Memory,
    mem2: Memory,
    a: (Status, u64),
    f: int,
)
    requires
        allocated(mem, mem2, a),
    ensures
        mem.frames().contains(f) ==> {
            &&& a.0 == Status::Success
            &&& a.1 <= f
            &&& mem.frames().contains(a.1 as int)
            &&& mem2.frames().contains(f) <==> f != a.1
        },
        a.0 != Status::Success ==> a == (Status::ErrRights, 0u64) && mem2 == mem,
{
}

/// The parties at boot: each has a domain of its own among the six, and the rights are named by
/// what they hold.
pub proof fn law_parties_at_boot()
    ensures
        DEMO_DOMAIN == 2,
        NEGATIVE_DOMAIN == 3,
        CLIENT_DOMAIN == 1,
        SERVER_DOMAIN == 2,
        DRIVER_DOMAIN == 5,
        SIGNAL_ONLY == Rights::INVOKE + Rights::WRITE,
        INVOKE_AND_GRANT == Rights::INVOKE + Rights::GRANT_CAP,
        INVOKE_AND_DELEGATE == Rights::INVOKE + Rights::DELEGATE,
        INVOKE_AND_READ == Rights::INVOKE + Rights::READ,
        QUEUE_IO == Rights::INVOKE + Rights::READ + Rights::WRITE,
        QUEUE_IO_AND_MAP == QUEUE_IO + Rights::MAP,
        DEMO_BITS == 5,
        DQ_SCRATCH_LBA == 32_700,
        DQ_MAGIC == 0xCA17_07D0_DEAD_0007,
{
}

/// There is room if and only if an object id, a slot of the root and a slot of the domain are
/// free.
pub proof fn law_room_is_free_places(
    v: crate::capspace::SpaceView,
    domain: int,
    id: int,
    root_slot: int,
    slot: int,
)
    requires
        v.wf(),
        0 <= domain < 6,
        0 <= id < 1024,
        0 <= root_slot < 256,
        0 <= slot < 256,
    ensures
        !v.objects[id].present && v.objects[id].kind.tag != 0xfffe && v.domains[0][root_slot] is None
            && v.domains[domain][slot] is None ==> has_room(v, domain),
        has_room(v, domain) ==> {
            &&& exists|i: int|
                0 <= i < 1024 && !(#[trigger] v.objects[i]).present && v.objects[i].kind.tag
                    != 0xfffe
            &&& exists|i: int| 0 <= i < 256 && (#[trigger] v.domains[0][i]) is None
            &&& exists|i: int| 0 <= i < 256 && (#[trigger] v.domains[domain][i]) is None
        },
{
    if has_room(v, domain) {
        let i = choose|i: int|
            0 <= i < crate::table::OBJECT_TABLE_SIZE && crate::table::id_free(
                #[trigger] v.objects[i],
            );
        assert(!v.objects[i].present);
        let j = choose|j: int|
            0 <= j < crate::table::CAP_TABLE_SLOTS && !((#[trigger] v.domains[0][j]) is Some);
        assert(v.domains[0][j] is None);
        let k = choose|k: int|
            0 <= k < crate::table::CAP_TABLE_SLOTS && !((#[trigger] v.domains[domain][k]) is Some);
        assert(v.domains[domain][k] is None);
    }
}

/// What a client and a server start with: capabilities to one and the same endpoint, which the
/// server may only invoke and over which the client may also grant, and a memory object that the
/// client may invoke and hand on, and no more.
pub proof fn law_client_and_server_can_talk(
    v: crate::capspace::SpaceView,
    v2: crate::capspace::SpaceView,
    server: u16,
    client: u16,
    memory: u16,
)
    requires
        v.wf(),
        ipc_prepared(
            v,
            v2,
            IpcSetup {
                server_endpoint: Some(server),
                client_endpoint: Some(client),
                client_memory: Some(memory),
            },
        ),
    ensures
        ({
            let s = v2.domains[2][server as int]->0;
            let c = v2.domains[1][client as int]->0;
            let m = v2.domains[1][memory as int]->0;
            &&& v2.domains[2][server as int] is Some
            &&& v2.domains[1][client as int] is Some
            &&& v2.domains[1][memory as int] is Some
            &&& c.object_id == s.object_id
            &&& c.type_tag.tag == 5
            &&& s.type_tag.tag == 5
            &&& m.type_tag.tag == 2
            &&& c.rights.bits == 0x44
            &&& s.rights.bits == 0x04
            &&& m.rights.bits == 0x0c
        }),
{
    lemma_rights();
    lemma_setup_rights();
}

} // verus!
