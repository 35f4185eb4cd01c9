//! The capability space: invocation, endpoints, delegation, revocation and reaping.
use cairn::capability::{ObjectKind, Rights};
use cairn::capspace::{
    admit_check, cap_invoke, cap_invoke_in, cap_invoke_ipc, create_device_queue, create_endpoint,
    create_notification, current_domain, delegate_from_root, demo_revoke_then_invoke,
    extent_metadata, init_root, map_finish, mint_extent, mint_extent_mapped, mint_timeslice,
    reap_domain, revoke_timeslice, set_current_domain, submit_finish, CapSpace, DeviceQueueDesc,
    EpState, Invoked, IpcOutcome, MapPlan, PageMap, Wake, CPTR_NONE, DQ_BASE, DQ_INFO, DQ_MAP,
    DQ_REPORT, DQ_SUBMIT, EXTENT_MAP_BASE, E_RECV, E_SEND, MAX_DOMAINS, M_ALLOC, M_FREE, N_POLL,
    N_SIGNAL, X_COMMIT, X_MAP, X_READ, X_WRITE,
};
use cairn::memory::{free_frame_count, init, MemmapEntry, Memory, MEMMAP_USABLE};
use cairn::objstore::fnv1a;
use cairn::table::{Status, CAP_TABLE_SLOTS, OBJECT_TABLE_SIZE};

fn rights(bits: u16) -> Rights {
    Rights::from_bits_truncate(bits)
}

fn memory(frames: u64) -> Memory {
    let mut mem = Memory::new();
    let map = [MemmapEntry { base: 0x10_0000, length: frames * 0x1000, type_: MEMMAP_USABLE }];
    init(&mut mem, 0, &map);
    mem
}

fn done(status: Status, reply: u64) -> Invoked {
    Invoked::Done(status, reply)
}

fn queue() -> DeviceQueueDesc {
    DeviceQueueDesc {
        desc_phys: 0x1000,
        avail_phys: 0x2000,
        used_phys: 0x3000,
        buf_phys: 0x4000,
        doorbell_phys: 0xfe00_3010,
        qsize: 8,
    }
}

#[test]
fn memory_gives_frames_until_there_are_none() {
    let mut cs = CapSpace::new();
    let mut mem = memory(2);
    let c = init_root(&mut cs).unwrap();
    assert_eq!(c, 0);
    assert_eq!(cs.domains[0].slots[0].unwrap().rights.bits(), 0x2f);
    assert_eq!(cap_invoke(&mut cs, &mut mem, c, M_ALLOC, 0), done(Status::Success, 0x100));
    assert_eq!(cap_invoke(&mut cs, &mut mem, c, M_ALLOC, 0), done(Status::Success, 0x101));
    assert_eq!(cap_invoke(&mut cs, &mut mem, c, M_ALLOC, 0), done(Status::ErrRights, 0));
    // Nothing is taken back, whatever the frame.
    assert_eq!(cap_invoke(&mut cs, &mut mem, c, M_FREE, 0x100), done(Status::ErrMethod, 0));
    assert_eq!(free_frame_count(&mem), 0);
    assert_eq!(cap_invoke(&mut cs, &mut mem, c, 9, 0), done(Status::ErrMethod, 0));
    assert_eq!(cap_invoke(&mut cs, &mut mem, 200, M_ALLOC, 0), done(Status::ErrBadCPtr, 0));
}

#[test]
fn notification_needs_the_right_for_each_side() {
    let mut cs = CapSpace::new();
    let mut mem = memory(1);
    let root = create_notification(&mut cs).unwrap();
    let s = delegate_from_root(&mut cs, 1, root, rights(Rights::INVOKE | Rights::WRITE), 7).unwrap();
    let p = delegate_from_root(&mut cs, 2, root, rights(Rights::INVOKE | Rights::READ), 8).unwrap();
    assert_eq!(cs.domains[1].slots[s as usize].unwrap().badge, 7);
    assert_eq!(cap_invoke_in(&mut cs, &mut mem, 1, s, N_SIGNAL, 0b0101), done(Status::Success, 0));
    assert_eq!(cap_invoke_in(&mut cs, &mut mem, 1, s, N_SIGNAL, 0b0011), done(Status::Success, 0));
    assert_eq!(cap_invoke_in(&mut cs, &mut mem, 1, s, N_POLL, 0), done(Status::ErrRights, 0));
    assert_eq!(cap_invoke_in(&mut cs, &mut mem, 2, p, N_SIGNAL, 1), done(Status::ErrRights, 0));
    assert_eq!(cap_invoke_in(&mut cs, &mut mem, 2, p, N_POLL, 0), done(Status::Success, 0b0111));
    assert_eq!(cap_invoke_in(&mut cs, &mut mem, 2, p, N_POLL, 0), done(Status::Success, 0));
    // The same number names nothing in another domain.
    assert_eq!(cap_invoke_in(&mut cs, &mut mem, 3, p, N_POLL, 0), done(Status::ErrBadCPtr, 0));
    // A domain out of range counts as the last.
    assert_eq!(cap_invoke_in(&mut cs, &mut mem, 77, 0, N_POLL, 0), done(Status::ErrBadCPtr, 0));
    set_current_domain(&mut cs, 77);
    assert_eq!(current_domain(&cs), MAX_DOMAINS - 1);
}

#[test]
fn delegation_from_root_is_refused() {
    let mut cs = CapSpace::new();
    let c = init_root(&mut cs).unwrap();
    assert_eq!(delegate_from_root(&mut cs, 0, c, Rights::all(), 0), None);
    assert_eq!(delegate_from_root(&mut cs, MAX_DOMAINS, c, Rights::all(), 0), None);
    assert_eq!(delegate_from_root(&mut cs, 1, 99, Rights::all(), 0), None);
    let ts = mint_timeslice(&mut cs).unwrap();
    // A time slice capability may not be delegated.
    assert_eq!(delegate_from_root(&mut cs, 1, ts, Rights::all(), 0), None);
    for i in 0..CAP_TABLE_SLOTS as u16 {
        assert_eq!(delegate_from_root(&mut cs, 1, c, Rights::all(), 0), Some(i));
    }
    assert_eq!(delegate_from_root(&mut cs, 1, c, Rights::all(), 0), None);
    // The rights are those of the root's capability and no more.
    assert_eq!(cs.domains[1].slots[0].unwrap().rights.bits(), 0x2f);
}

#[test]
fn objects_and_slots_run_out() {
    let mut cs = CapSpace::new();
    for i in 0..CAP_TABLE_SLOTS as u16 {
        assert_eq!(init_root(&mut cs), Some(i));
    }
    // No slot is left, but the object was created.
    assert_eq!(create_endpoint(&mut cs), None);
    assert!(cs.objects.metas[CAP_TABLE_SLOTS].present);
    for i in 0..CAP_TABLE_SLOTS {
        cs.domains[0].slots[i] = None;
    }
    for _ in CAP_TABLE_SLOTS + 1..OBJECT_TABLE_SIZE {
        cs.domains[0].slots[0] = None;
        assert_eq!(create_notification(&mut cs), Some(0));
    }
    cs.domains[0].slots[0] = None;
    assert_eq!(mint_extent(&mut cs, 1, 2, 3), None);
    assert_eq!(create_device_queue(&mut cs, Some(queue()), 1, 2), None);
    assert_eq!(mint_timeslice(&mut cs), None);
}

/// Two domains with an endpoint between them; domain 1 also holds a memory capability.
fn two_domains(memory_mask: u16) -> (CapSpace, u16, u16, u16) {
    let mut cs = CapSpace::new();
    let ep = create_endpoint(&mut cs).unwrap();
    let m = init_root(&mut cs).unwrap();
    let grant = Rights::INVOKE | Rights::GRANT_CAP;
    let e1 = delegate_from_root(&mut cs, 1, ep, rights(grant), 0).unwrap();
    let m1 = delegate_from_root(&mut cs, 1, m, rights(memory_mask), 5).unwrap();
    let e2 = delegate_from_root(&mut cs, 2, ep, rights(Rights::INVOKE), 0).unwrap();
    (cs, e1, m1, e2)
}

#[test]
fn receiver_first_rendezvous_moves_the_capability() {
    let (mut cs, e1, m1, e2) = two_domains(Rights::INVOKE | Rights::DELEGATE);
    let mut mem = memory(1);
    set_current_domain(&mut cs, 2);
    assert_eq!(
        cap_invoke_ipc(&mut cs, &mut mem, 4, e2, E_RECV, 0, CPTR_NONE),
        IpcOutcome::ParkRecv(0)
    );
    assert_eq!(cs.endpoints[0].state, EpState::RecvWait);
    set_current_domain(&mut cs, 1);
    assert_eq!(
        cap_invoke_ipc(&mut cs, &mut mem, 3, e1, E_SEND, 0xCAFE, m1),
        IpcOutcome::Handoff(
            Status::Success,
            0,
            CPTR_NONE,
            Wake { task: 4, status: Status::Success, reply: 0xCAFE, cptr: 1 }
        )
    );
    assert_eq!(cs.domains[1].slots[m1 as usize], None);
    let moved = cs.domains[2].slots[1].unwrap();
    assert_eq!(moved.type_tag.raw(), ObjectKind::MEMORY);
    assert_eq!(moved.rights.bits(), Rights::INVOKE | Rights::DELEGATE);
    assert_eq!(moved.badge, 0);
    assert_eq!(cs.endpoints[0].state, EpState::Idle);
    // The receiver can use it, the sender no longer.
    assert_eq!(cap_invoke_in(&mut cs, &mut mem, 2, 1, M_ALLOC, 0), done(Status::Success, 0x100));
    assert_eq!(cap_invoke_in(&mut cs, &mut mem, 1, m1, M_ALLOC, 0), done(Status::ErrBadCPtr, 0));
}

#[test]
fn sender_first_rendezvous_gives_the_same() {
    let (mut cs, e1, m1, e2) = two_domains(Rights::INVOKE | Rights::DELEGATE);
    let mut mem = memory(1);
    set_current_domain(&mut cs, 1);
    assert_eq!(
        cap_invoke_ipc(&mut cs, &mut mem, 3, e1, E_SEND, 0xCAFE, m1),
        IpcOutcome::ParkSend(0)
    );
    // Nothing has moved yet, and a second sender is turned away.
    assert!(cs.domains[1].slots[m1 as usize].is_some());
    assert_eq!(
        cap_invoke_ipc(&mut cs, &mut mem, 2, e1, E_SEND, 1, CPTR_NONE),
        IpcOutcome::Done(Status::ErrRights, 0, CPTR_NONE)
    );
    set_current_domain(&mut cs, 2);
    assert_eq!(
        cap_invoke_ipc(&mut cs, &mut mem, 4, e2, E_RECV, 0, CPTR_NONE),
        IpcOutcome::Handoff(
            Status::Success,
            0xCAFE,
            1,
            Wake { task: 3, status: Status::Success, reply: 0, cptr: CPTR_NONE }
        )
    );
    assert_eq!(cs.domains[1].slots[m1 as usize], None);
    assert_eq!(cs.domains[2].slots[1].unwrap().rights.bits(), Rights::INVOKE | Rights::DELEGATE);
}

#[test]
fn failed_transfer_aborts_for_both() {
    // The capability may not be delegated, so it cannot be moved.
    let (mut cs, e1, m1, e2) = two_domains(Rights::INVOKE);
    let mut mem = memory(1);
    set_current_domain(&mut cs, 2);
    cap_invoke_ipc(&mut cs, &mut mem, 4, e2, E_RECV, 0, CPTR_NONE);
    assert_eq!(
        cap_invoke_ipc(&mut cs, &mut mem, 3, e2, E_RECV, 0, CPTR_NONE),
        IpcOutcome::Done(Status::ErrRights, 0, CPTR_NONE)
    );
    set_current_domain(&mut cs, 1);
    assert_eq!(
        cap_invoke_ipc(&mut cs, &mut mem, 3, e1, E_SEND, 0xCAFE, m1),
        IpcOutcome::Handoff(
            Status::ErrRights,
            0,
            CPTR_NONE,
            Wake { task: 4, status: Status::ErrRights, reply: 0, cptr: CPTR_NONE }
        )
    );
    assert!(cs.domains[1].slots[m1 as usize].is_some());
    assert_eq!(cs.domains[2].slots[1], None);
    assert_eq!(cs.endpoints[0].state, EpState::Idle);
    // The same with the sender first.
    assert_eq!(
        cap_invoke_ipc(&mut cs, &mut mem, 3, e1, E_SEND, 0xCAFE, m1),
        IpcOutcome::ParkSend(0)
    );
    set_current_domain(&mut cs, 2);
    assert_eq!(
        cap_invoke_ipc(&mut cs, &mut mem, 4, e2, E_RECV, 0, CPTR_NONE),
        IpcOutcome::Handoff(
            Status::ErrRights,
            0,
            CPTR_NONE,
            Wake { task: 3, status: Status::ErrRights, reply: 0, cptr: CPTR_NONE }
        )
    );
}

#[test]
fn transfer_within_a_domain_is_refused() {
    let (mut cs, e1, m1, _) = two_domains(Rights::INVOKE | Rights::DELEGATE);
    let mut mem = memory(1);
    set_current_domain(&mut cs, 1);
    cap_invoke_ipc(&mut cs, &mut mem, 2, e1, E_RECV, 0, CPTR_NONE);
    assert_eq!(
        cap_invoke_ipc(&mut cs, &mut mem, 3, e1, E_SEND, 1, m1),
        IpcOutcome::Handoff(
            Status::ErrBadCPtr,
            0,
            CPTR_NONE,
            Wake { task: 2, status: Status::ErrBadCPtr, reply: 0, cptr: CPTR_NONE }
        )
    );
}

#[test]
fn bad_transfer_requests_never_wait() {
    let (mut cs, e1, m1, e2) = two_domains(Rights::INVOKE | Rights::DELEGATE);
    let mut mem = memory(1);
    set_current_domain(&mut cs, 2);
    // No right to grant over this endpoint.
    assert_eq!(
        cap_invoke_ipc(&mut cs, &mut mem, 4, e2, E_SEND, 1, 0),
        IpcOutcome::Done(Status::ErrRights, 0, CPTR_NONE)
    );
    set_current_domain(&mut cs, 1);
    // A slot out of range.
    assert_eq!(
        cap_invoke_ipc(&mut cs, &mut mem, 3, e1, E_SEND, 1, CAP_TABLE_SLOTS as u16),
        IpcOutcome::Done(Status::ErrBadCPtr, 0, CPTR_NONE)
    );
    // Only an endpoint takes a capability.
    assert_eq!(
        cap_invoke_ipc(&mut cs, &mut mem, 3, m1, M_ALLOC, 0, e1),
        IpcOutcome::Done(Status::ErrMethod, 0, CPTR_NONE)
    );
    assert_eq!(
        cap_invoke_ipc(&mut cs, &mut mem, 3, m1, M_ALLOC, 0, CPTR_NONE),
        IpcOutcome::Done(Status::Success, 0x100, CPTR_NONE)
    );
    assert_eq!(
        cap_invoke_ipc(&mut cs, &mut mem, 3, e1, 9, 0, CPTR_NONE),
        IpcOutcome::Done(Status::ErrMethod, 0, CPTR_NONE)
    );
    assert_eq!(
        cap_invoke_ipc(&mut cs, &mut mem, 3, 50, E_SEND, 0, CPTR_NONE),
        IpcOutcome::Done(Status::ErrBadCPtr, 0, CPTR_NONE)
    );
    assert_eq!(cs.endpoints[0].state, EpState::Idle);
}

#[test]
fn extent_is_read_and_mapped_but_not_written() {
    let mut cs = CapSpace::new();
    let mut mem = memory(1);
    let c = mint_extent(&mut cs, 10, 700, 0xABCD).unwrap();
    let m = mint_extent_mapped(&mut cs, 11, 8, 0x1234, 0x7000).unwrap();
    assert_eq!(extent_metadata(&cs, 0, c), Some((10, 700, 0xABCD)));
    assert_eq!(cap_invoke(&mut cs, &mut mem, c, X_READ, 0), done(Status::Success, 0xABCD));
    assert_eq!(cap_invoke(&mut cs, &mut mem, c, X_WRITE, 0), done(Status::ErrMethod, 0));
    assert_eq!(cap_invoke(&mut cs, &mut mem, c, X_COMMIT, 0), done(Status::ErrMethod, 0));
    assert_eq!(cap_invoke(&mut cs, &mut mem, c, X_MAP, 0), done(Status::ErrMethod, 0));
    let plan = MapPlan::Extent(0x7000);
    assert_eq!(cap_invoke(&mut cs, &mut mem, m, X_MAP, 0), Invoked::MapPages(plan));
    assert_eq!(
        plan.pages(),
        vec![PageMap {
            va: EXTENT_MAP_BASE,
            phys: 0x7000,
            writable: false,
            executable: false,
            no_cache: false
        }]
    );
    let ro = rights(Rights::INVOKE | Rights::READ);
    let d = delegate_from_root(&mut cs, 3, c, ro, 0).unwrap();
    assert_eq!(extent_metadata(&cs, 3, d), Some((10, 700, 0xABCD)));
    assert_eq!(cap_invoke_in(&mut cs, &mut mem, 3, d, X_WRITE, 0), done(Status::ErrRights, 0));
    assert_eq!(cap_invoke_in(&mut cs, &mut mem, 3, d, X_MAP, 0), done(Status::ErrRights, 0));
    let w = delegate_from_root(&mut cs, 3, c, rights(Rights::INVOKE), 0).unwrap();
    assert_eq!(extent_metadata(&cs, 3, w), None);
    let mem_cap = init_root(&mut cs).unwrap();
    assert_eq!(extent_metadata(&cs, 0, mem_cap), None);
    assert_eq!(extent_metadata(&cs, 0, 99), None);
}

#[test]
fn device_queue_methods() {
    let mut cs = CapSpace::new();
    let mut mem = memory(1);
    assert_eq!(create_device_queue(&mut cs, None, 1, 2), None);
    assert!(!cs.objects.metas[0].present);
    let c = create_device_queue(&mut cs, Some(queue()), 0x5EED, 32700).unwrap();
    assert_eq!(cap_invoke(&mut cs, &mut mem, c, DQ_INFO, 0), done(Status::Success, 8));
    assert_eq!(cap_invoke(&mut cs, &mut mem, c, DQ_REPORT, 0x5EED), done(Status::Success, 1));
    assert_eq!(cap_invoke(&mut cs, &mut mem, c, DQ_REPORT, 0), done(Status::Success, 0));
    assert_eq!(cap_invoke(&mut cs, &mut mem, c, DQ_SUBMIT, 77), Invoked::ReadBlock(77));
    let plan = MapPlan::Queue(queue());
    assert_eq!(cap_invoke(&mut cs, &mut mem, c, DQ_MAP, 0), Invoked::MapPages(plan));
    let pages = plan.pages();
    assert_eq!(pages.len(), 5);
    let phys: Vec<u64> = pages.iter().map(|p| p.phys).collect();
    assert_eq!(phys, vec![0x1000, 0x2000, 0x3000, 0x4000, 0xfe00_3010]);
    let flags: Vec<(u64, bool, bool)> = pages.iter().map(|p| (p.va - DQ_BASE, p.writable, p.no_cache)).collect();
    assert_eq!(
        flags,
        vec![
            (0, true, false),
            (0x1000, true, false),
            (0x2000, false, false),
            (0x3000, true, false),
            (0x4000, true, true)
        ]
    );
    // An untrusted driver submits but does not map.
    let d = delegate_from_root(&mut cs, 5, c, rights(Rights::INVOKE | Rights::WRITE), 0).unwrap();
    assert_eq!(cap_invoke_in(&mut cs, &mut mem, 5, d, DQ_MAP, 0), done(Status::ErrRights, 0));
    assert_eq!(cap_invoke_in(&mut cs, &mut mem, 5, d, DQ_SUBMIT, 3), Invoked::ReadBlock(3));
    // A queue that was never set up is not mapped.
    let zero = DeviceQueueDesc { buf_phys: 0, ..queue() };
    let z = create_device_queue(&mut cs, Some(zero), 0, 0).unwrap();
    assert_eq!(cap_invoke(&mut cs, &mut mem, z, DQ_MAP, 0), done(Status::ErrMethod, 0));
    let sector = [7u8; 512];
    assert_eq!(submit_finish(Some(sector)), (Status::Success, fnv1a(&sector)));
    assert_eq!(submit_finish(None), (Status::ErrMethod, 0));
}

#[test]
fn reaping_takes_everything_from_the_dead_and_nothing_from_others() {
    let (mut cs, e1, _, e2) = two_domains(Rights::INVOKE | Rights::DELEGATE);
    let mut mem = memory(1);
    let plan = MapPlan::Queue(queue());
    assert_eq!(map_finish(&mut cs, 1, plan, 5), (Status::Success, DQ_BASE));
    assert_eq!(map_finish(&mut cs, 1, MapPlan::Extent(0x7000), 1), (Status::Success, EXTENT_MAP_BASE));
    assert_eq!(map_finish(&mut cs, 2, plan, 2), (Status::ErrMethod, 0));
    set_current_domain(&mut cs, 1);
    cap_invoke_ipc(&mut cs, &mut mem, 3, e1, E_RECV, 0, CPTR_NONE);
    let pages = reap_domain(&mut cs, 1, 3);
    assert_eq!(
        pages,
        vec![DQ_BASE, DQ_BASE + 0x1000, DQ_BASE + 0x2000, DQ_BASE + 0x3000, DQ_BASE + 0x4000, EXTENT_MAP_BASE]
    );
    assert!(cs.domains[1].slots.iter().all(|s| s.is_none()));
    assert_eq!(cs.endpoints[0].state, EpState::Idle);
    assert!(cs.domains[2].slots[e2 as usize].is_some());
    assert_eq!(cs.maps[2], vec![DQ_BASE, DQ_BASE + 0x1000]);
    assert_eq!(reap_domain(&mut cs, 1, 3), Vec::<u64>::new());
    // A sender that comes now waits; it does not wake the dead.
    set_current_domain(&mut cs, 2);
    assert_eq!(
        cap_invoke_ipc(&mut cs, &mut mem, 4, e2, E_SEND, 1, CPTR_NONE),
        IpcOutcome::ParkSend(0)
    );
    // One that waits stays when another task dies, and a domain out of range has nothing.
    assert_eq!(reap_domain(&mut cs, 60, 3), Vec::<u64>::new());
    assert_eq!(cs.endpoints[0].state, EpState::SendWait);
    assert!(cs.domains[2].slots[e2 as usize].is_some());
}

#[test]
fn revocation_cuts_every_domain_off() {
    let mut cs = CapSpace::new();
    let mut mem = memory(3);
    let c = init_root(&mut cs).unwrap();
    let other = init_root(&mut cs).unwrap();
    let d = delegate_from_root(&mut cs, 2, c, Rights::all(), 0).unwrap();
    assert_eq!(demo_revoke_then_invoke(&mut cs, &mut mem, c), Status::ErrRevoked);
    assert_eq!(cap_invoke_in(&mut cs, &mut mem, 2, d, M_ALLOC, 0), done(Status::ErrRevoked, 0));
    assert_eq!(demo_revoke_then_invoke(&mut cs, &mut mem, c), Status::ErrBadCPtr);
    assert_eq!(cap_invoke(&mut cs, &mut mem, other, M_ALLOC, 0), done(Status::Success, 0x100));
}

#[test]
fn time_is_a_capability() {
    let mut cs = CapSpace::new();
    let ts = mint_timeslice(&mut cs).unwrap();
    let m = init_root(&mut cs).unwrap();
    assert_eq!(admit_check(&cs, ts), Status::Success);
    assert_eq!(admit_check(&cs, m), Status::ErrType);
    assert_eq!(admit_check(&cs, 9), Status::ErrBadCPtr);
    assert_eq!(revoke_timeslice(&mut cs, 9), Status::ErrBadCPtr);
    assert_eq!(revoke_timeslice(&mut cs, ts), Status::Success);
    assert_eq!(admit_check(&cs, ts), Status::ErrRevoked);
    assert_eq!(revoke_timeslice(&mut cs, ts), Status::ErrRevoked);
    cs.domains[0].slots[m as usize] = None;
    assert_eq!(admit_check(&cs, m), Status::ErrBadCPtr);
}
