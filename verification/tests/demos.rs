//! What the kernel shows of itself when it starts.
use cairn::boot::{
    capability_demo, domain_demo, driver_seed, driver_setup, extent_demo, grant_gate_demo, ipc_setup,
    mapped_extent_demo, notify_demo, revoked_time_demo,
};
use cairn::capspace::{admit_check, CapSpace, DeviceQueueDesc, EpState};
use cairn::supervisor::grant;
use cairn::memory::{init, MemmapEntry, Memory, MEMMAP_USABLE};
use cairn::table::{Status, CAP_TABLE_SLOTS};

fn memory(frames: u64) -> Memory {
    let mut mem = Memory::new();
    let map = [MemmapEntry { base: 0x10_0000, length: frames * 0x1000, type_: MEMMAP_USABLE }];
    init(&mut mem, 0, &map);
    mem
}

/// A space in which the root has no free slot.
fn full_root() -> CapSpace {
    let mut cs = CapSpace::new();
    while cairn::capspace::init_root(&mut cs).is_some() {}
    cs
}

#[test]
fn capability_run() {
    let mut cs = CapSpace::new();
    let mut mem = memory(3);
    let d = capability_demo(&mut cs, &mut mem).unwrap();
    assert_eq!(d.cptr, 0);
    assert_eq!((d.first, d.second), ((Status::Success, 0x100), (Status::Success, 0x101)));
    assert_eq!((d.free, d.revoked), (Status::ErrMethod, Status::ErrRevoked));
    assert_eq!(cs.objects.metas[0].current_epoch, 1);
    let mut none = memory(0);
    let d = capability_demo(&mut cs, &mut none).unwrap();
    assert_eq!(d.first, (Status::ErrRights, 0));
    assert_eq!(capability_demo(&mut full_root(), &mut mem), None);
}

#[test]
fn domain_run() {
    let mut cs = CapSpace::new();
    let mut mem = memory(3);
    // The root's first slot is taken, so that the two pointers differ.
    capability_demo(&mut cs, &mut mem);
    let d = domain_demo(&mut cs, &mut mem).unwrap();
    assert_eq!((d.root_cptr, d.cptr), (1, 0));
    assert_eq!(d.delegated, (Status::Success, 0x102));
    assert_eq!(d.foreign, Status::ErrBadCPtr);
    assert_eq!(domain_demo(&mut full_root(), &mut mem), None);
}

#[test]
fn notification_run() {
    let mut cs = CapSpace::new();
    let mut mem = memory(0);
    let d = notify_demo(&mut cs, &mut mem).unwrap();
    assert_eq!((d.signal, d.denied), (Status::Success, Status::ErrRights));
    assert_eq!((d.first, d.second), ((Status::Success, 0b101), (Status::Success, 0)));
    assert_eq!(cs.notify[0], 0);
    assert_eq!(notify_demo(&mut full_root(), &mut mem), None);
}

#[test]
fn refusals_run() {
    let mut cs = CapSpace::new();
    let mut mem = memory(0);
    assert_eq!(grant_gate_demo(&mut cs, &mut mem, 1), Some(Status::ErrRights));
    assert_eq!((cs.current, cs.endpoints[0].state), (0, EpState::Idle));
    assert_eq!(revoked_time_demo(&mut cs), Some(Status::ErrRevoked));
    assert_eq!(grant_gate_demo(&mut full_root(), &mut mem, 1), None);
    assert_eq!(revoked_time_demo(&mut full_root()), None);
}

#[test]
fn extent_run() {
    let mut cs = CapSpace::new();
    let mut mem = memory(0);
    let d = extent_demo(&mut cs, &mut mem, 2, 59, 0x1234).unwrap();
    assert_eq!(d.read, (Status::Success, 0x1234));
    assert_eq!(d.masked, Some((Status::ErrRights, Status::ErrMethod)));
    for i in 0..CAP_TABLE_SLOTS {
        cs.domains[3].slots[i] = cs.domains[3].slots[0];
    }
    assert_eq!(extent_demo(&mut cs, &mut mem, 2, 59, 1).unwrap().masked, None);
    assert_eq!(extent_demo(&mut full_root(), &mut mem, 2, 59, 1), None);
}

#[test]
fn client_and_server_are_set_up() {
    let mut cs = CapSpace::new();
    let s = ipc_setup(&mut cs);
    assert_eq!((s.client_endpoint, s.client_memory, s.server_endpoint), (Some(0), Some(1), Some(0)));
    assert_eq!(cs.domains[1].slots[0].unwrap().rights.bits(), 0x44);
    assert_eq!(cs.domains[1].slots[1].unwrap().rights.bits(), 0x0c);
    assert_eq!(cs.domains[2].slots[0].unwrap().rights.bits(), 0x04);
    let s = ipc_setup(&mut full_root());
    assert_eq!((s.client_endpoint, s.client_memory, s.server_endpoint), (None, None, None));
}

#[test]
fn mapped_extent_run() {
    let mut cs = CapSpace::new();
    let mut mem = memory(0);
    let d = mapped_extent_demo(&mut cs, &mut mem, 2, 59, 0x1234, 0x5000).unwrap();
    assert_eq!((d.cptr, d.denied), (0, Some(Status::ErrRights)));
    assert_eq!(cs.domains[3].slots[0].unwrap().rights.bits(), 0x05);
    assert_eq!(cs.extents[0].data_frame_phys, 0x5000);
    assert_eq!(mapped_extent_demo(&mut full_root(), &mut mem, 2, 59, 1, 0), None);
}

#[test]
fn faulting_domain_is_set_up() {
    let mut cs = CapSpace::new();
    let (mem, ts) = grant(&mut cs);
    assert_eq!((mem, ts), (Some(0), Some(1)));
    assert_eq!(cs.domains[4].slots[0].unwrap().rights.bits(), 0x04);
    assert_eq!(admit_check(&cs, 1), Status::Success);
    assert_eq!(grant(&mut full_root()), (None, None));
}

#[test]
fn driver_is_set_up() {
    let queue = DeviceQueueDesc {
        desc_phys: 0x1000,
        avail_phys: 0x2000,
        used_phys: 0x3000,
        buf_phys: 0x4000,
        doorbell_phys: 0x5008,
        qsize: 8,
    };
    let mut mem = memory(0);
    let mut cs = CapSpace::new();
    let s = driver_setup(&mut cs, &mut mem, Some(queue), true);
    assert_eq!((s.root, s.driver, s.denied), (Some(0), Some(0), Some(Status::ErrRights)));
    assert_eq!(cs.domains[5].slots[0].unwrap().rights.bits(), 0x27);
    assert_eq!(cs.domains[3].slots[0].unwrap().rights.bits(), 0x07);
    assert_eq!((cs.devqueues[0].magic, cs.devqueues[0].scratch_lba), (0xCA17_07D0_DEAD_0007, 32_700));
    // Without the sector or without a queue the driver gets nothing.
    let mut cs = CapSpace::new();
    let s = driver_setup(&mut cs, &mut mem, Some(queue), false);
    assert_eq!((s.root, s.driver, s.denied), (Some(0), None, None));
    assert!(cs.domains[5].slots[0].is_none() && cs.domains[3].slots[0].is_none());
    let s = driver_setup(&mut cs, &mut mem, None, true);
    assert_eq!((s.root, s.driver, s.denied), (None, None, None));
    let (lba, sector) = driver_seed();
    assert_eq!((lba, &sector[..9]), (32_700, &[0x07, 0, 0xAD, 0xDE, 0xD0, 0x07, 0x17, 0xCA, 0][..]));
}
