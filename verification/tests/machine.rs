//! Page tables, segments, faults, timer, serial port, system calls and user tasks.
use std::collections::HashMap;

use cairn::apic::{apic_id, eoi, init_timer, RegWrite};
use cairn::capability::{ObjectKind, Rights};
use cairn::capspace::{
    create_device_queue, create_endpoint, delegate_from_root, init_root, map_finish,
    set_current_domain, CapSpace, DeviceQueueDesc, MapPlan, PageMap, Wake, CPTR_NONE, DQ_BASE,
    DQ_MAP, DQ_SUBMIT, E_RECV, E_SEND, M_ALLOC,
};
use cairn::gdt::{build, build_with, kernel_selectors, user_selectors, GdtSelectors, Segment};
use cairn::interrupts::{faulted_in_ring3, page_fault_action, FaultAction};
use cairn::memory::{init, MemmapEntry, Memory, MEMMAP_USABLE};
use cairn::paging::{
    dump_level, dump_walk, examine, manual_map, map_mmio, map_one_page, page_of, unmap_page,
    LevelReport, OnePage, PageEvent, PageJob, PageOp, WalkEnd, WalkStep,
};
use cairn::serial::{can_send, Serial};
use cairn::syscall::{
    finish, syscall_dispatch, PerCpu, SyscallOutcome, SyscallRet, CPTR_NULL, SYS_CAP_INVOKE,
};
use cairn::table::Status;
use cairn::user::{driver_params, setup_user_task, UserPage};
use x86_64::structures::tss::TaskStateSegment;

const HHDM: u64 = 0xffff_8000_0000_0000;

fn memory(frames: u64) -> Memory {
    let mut mem = Memory::new();
    let map = [MemmapEntry { base: 0x10_0000, length: frames * 0x1000, type_: MEMMAP_USABLE }];
    init(&mut mem, HHDM, &map);
    mem
}

/// Tables for one page below 0x8000: the levels are at 0x1000, 0x2000, 0x3000 and 0x4000.
fn tables() -> HashMap<u64, u64> {
    HashMap::from([(0x1000, 0x2003), (0x2000, 0x3003), (0x3000, 0x4003)])
}

/// Performs a job and gives its outcome and what was done besides reading.
fn perform(t: &mut HashMap<u64, u64>, mut job: PageJob, frame: Option<u64>) -> (bool, Vec<PageOp>) {
    let mut log = Vec::new();
    loop {
        let op = job.op(HHDM);
        let ev = match op {
            PageOp::ReadEntry(a) => {
                job.advance(PageEvent::Entry(*t.get(&(a - HHDM)).unwrap_or(&0)));
                continue;
            }
            PageOp::TakeFrame => match frame {
                Some(f) => PageEvent::Frame(f),
                None => PageEvent::NoFrame,
            },
            PageOp::WriteEntry(a, e) => {
                t.insert(a - HHDM, e);
                PageEvent::Did
            }
            PageOp::Flush(_) | PageOp::ClearPage(_) => PageEvent::Did,
            PageOp::Done(ok) => return (ok, log),
        };
        log.push(op);
        job.advance(ev);
    }
}

#[test]
fn pages_are_mapped_and_unmapped() {
    let mut t = tables();
    let (ok, log) = perform(&mut t, manual_map(0x1000, 0x5123), Some(0x77));
    assert!(ok);
    assert_eq!(
        log,
        vec![
            PageOp::TakeFrame,
            PageOp::WriteEntry(HHDM + 0x4000 + 5 * 8, 0x77003),
            PageOp::Flush(0x5000),
            PageOp::ClearPage(0x5000)
        ]
    );
    // It is mapped now, so nothing more is done.
    assert_eq!(perform(&mut t, manual_map(0x1000, 0x5FFF), Some(0x78)), (true, vec![]));
    let (ok, log) = perform(&mut t, unmap_page(0x1000, 0x5123), None);
    assert!(ok);
    assert_eq!(log, vec![PageOp::WriteEntry(HHDM + 0x4028, 0), PageOp::Flush(0x5000)]);
    assert_eq!(t[&0x4028], 0);
    // Without a frame nothing is written.
    assert_eq!(perform(&mut t, manual_map(0x1000, 0x6000), None), (false, vec![PageOp::TakeFrame]));
    assert_eq!(t.get(&0x4030), None);
}

#[test]
fn missing_and_large_tables_end_a_job() {
    let mut t = tables();
    assert_eq!(perform(&mut t, manual_map(0x1000, 0x4000_0000), Some(1)), (false, vec![]));
    t.insert(0x3008, 0x20_0083);
    assert_eq!(perform(&mut t, manual_map(0x1000, 0x20_0000), Some(1)), (false, vec![]));
    assert_eq!(perform(&mut t, unmap_page(0x1000, 0x20_0000), None), (false, vec![]));
    assert_eq!(t[&0x3008], 0x20_0083);
}

#[test]
fn walks_are_reported() {
    let mut t = tables();
    t.insert(0x4000 + 5 * 8, 0x8000_0000_0007_7003);
    let va = 0x5123;
    let mut w = dump_walk(0x1000, va);
    let mut ends = Vec::new();
    for level in [4u8, 3, 2, 1] {
        let e = t[&(w.entry_addr(HHDM) - HHDM)];
        let (report, end) = dump_level(&mut w, e);
        assert_eq!((report.level, report.entry), (level, e));
        ends.push(end);
        if level == 1 {
            assert_eq!(
                report,
                LevelReport { level: 1, index: 5, entry: e, present: true, huge: false, phys: 0x77000 }
            );
        }
    }
    assert_eq!(ends, vec![None, None, None, Some(WalkEnd::Mapped)]);
    let mut w = dump_walk(0x1000, 0xffff_ffff_ffff_ffff);
    assert_eq!(w.index(), 511);
    assert_eq!(dump_level(&mut w, 0).1, Some(WalkEnd::NotPresent));
    assert_eq!(dump_level(&mut w, 0x81).1, Some(WalkEnd::Huge));
    assert_eq!(examine(0x8000_0000_1234_5001), WalkStep::Next(0x1234_5000));
    assert_eq!((examine(0x80), examine(0x81)), (WalkStep::NotPresent, WalkStep::Huge));
}

#[test]
fn pages_of_the_kernel() {
    assert_eq!(page_of(0x1fff), 0x1000);
    assert_eq!(
        map_mmio(0x9000_0FFF, 0xFEE0_0020),
        PageMap { va: 0x9000_0000, phys: 0xFEE0_0000, writable: true, executable: false, no_cache: true }
    );
    let mut mem = memory(1);
    assert_eq!(map_one_page(&mut mem, 0x7123, true), OnePage::AlreadyMapped);
    assert_eq!(
        map_one_page(&mut mem, 0x7123, false),
        OnePage::MapTo(PageMap { va: 0x7000, phys: 0x10_0000, writable: true, executable: true, no_cache: false })
    );
    assert_eq!(map_one_page(&mut mem, 0x7123, false), OnePage::NoFrame);
}

#[test]
fn segments_are_in_order() {
    let tss: &'static TaskStateSegment = Box::leak(Box::new(TaskStateSegment::new()));
    let (gdt, s) = build(tss);
    let words: Vec<u64> = gdt.entries().iter().map(|e| e.raw()).collect();
    assert_eq!(
        &words[..5],
        &[0, 0x00af_9b00_0000_ffff, 0x00cf_9300_0000_ffff, 0x00cf_f300_0000_ffff, 0x00af_fb00_0000_ffff]
    );
    assert_eq!(words.len(), 7);
    // The last two hold the address, the limit and the kind of the task state segment.
    let base = (words[5] >> 16 & 0xff_ffff) | (words[5] >> 56 << 24) | (words[6] << 32);
    assert_eq!(format!("{:#x}", base), format!("{:p}", tss));
    assert_eq!((words[5] & 0xffff, words[5] >> 40 & 0xff), (103, 0x89));
    assert_eq!(
        s,
        GdtSelectors {
            code_selector: 0x08,
            data_selector: 0x10,
            user_code_selector: 0x23,
            user_data_selector: 0x1b,
            tss_selector: 0x28
        }
    );
    assert_eq!(kernel_selectors(&s), (0x08, 0x10));
    assert_eq!(user_selectors(&s), (0x23, 0x1b));
    let plain = GdtSelectors { user_code_selector: 0x20, user_data_selector: 0x18, ..s };
    assert_eq!(user_selectors(&plain), (0x23, 0x1b));
}

#[test]
fn task_segment_comes_last() {
    let (gdt, s) = build_with(Segment::System(0x1200_8934_5678_0067, 0xffff_8000));
    let words: Vec<u64> = gdt.entries().iter().map(|e| e.raw()).collect();
    assert_eq!(words[4..], [0x00af_fb00_0000_ffff, 0x1200_8934_5678_0067, 0xffff_8000]);
    assert_eq!((s.user_code_selector, s.tss_selector), (0x23, 0x28));
    // The selector takes the privilege level of the descriptor.
    let (_, s) = build_with(Segment::System(0x0000_e900_0000_0067, 0));
    assert_eq!(s.tss_selector, 0x2b);
}

#[test]
fn faults_are_sorted() {
    let guard = 0xffff_ffff_8010_0000;
    assert_eq!(page_fault_action(guard, guard, 0, 0x08), FaultAction::StackOverflow);
    assert_eq!(page_fault_action(guard, guard + 0xfff, 2, 0x08), FaultAction::StackOverflow);
    assert_eq!(page_fault_action(guard, guard + 0x1000, 0, 0x08), FaultAction::MapOnDemand);
    assert_eq!(page_fault_action(guard, guard + 0x1000, 1, 0x08), FaultAction::Fatal);
    assert_eq!(page_fault_action(guard, 0xffff_ffff_c000_0000, 0, 0x08), FaultAction::Fatal);
    assert_eq!(page_fault_action(guard, 0x1000, 0, 0x08), FaultAction::Fatal);
    // A domain that touches the guard page only hurts itself.
    assert_eq!(page_fault_action(guard, guard, 5, 0x23), FaultAction::TerminateDomain);
    assert!(faulted_in_ring3(0x23) && !faulted_in_ring3(0x08));
}

#[test]
fn timer_is_started() {
    let p = init_timer(HHDM, 0xFEE0_0100, 1000);
    assert_eq!((p.base_msr, p.phys_base, p.virt_base), (0xFEE0_0900, 0xFEE0_0000, HHDM + 0xFEE0_0000));
    let w = |reg: u64, value: u32| RegWrite { reg, value };
    assert_eq!(p.writes, [w(0xF0, 0x1FF), w(0x3E0, 3), w(0x320, 0x2_0020), w(0x380, 1000)]);
    assert_eq!(eoi(), w(0xB0, 0));
    assert_eq!(apic_id(0x0300_0000), 3);
}

#[test]
fn serial_port() {
    let w: Vec<(u16, u8)> = cairn::serial::init().iter().map(|w| (w.port, w.value)).collect();
    assert_eq!(
        w,
        vec![
            (0x3F9, 0),
            (0x3FB, 0x80),
            (0x3F8, 3),
            (0x3F9, 0),
            (0x3FB, 3),
            (0x3FA, 0xC7),
            (0x3FC, 0x0B)
        ]
    );
    assert!(can_send(0x20) && can_send(0x60) && !can_send(0xDF));
    assert_eq!(Serial.encode_all(b"a\nb\n\n"), b"a\r\nb\r\n\r\n".to_vec());
    assert_eq!(Serial.encode(10), (Some(13), 10));
    assert_eq!(Serial.encode(65), (None, 65));
}

fn cpu() -> PerCpu {
    PerCpu { kernel_rsp0: 1, user_rsp_scratch: 2, reply_cptr: 3 }
}

#[test]
fn system_calls_are_checked() {
    let mut cs = CapSpace::new();
    let mut mem = memory(2);
    let c = init_root(&mut cs).unwrap() as u64;
    let mut p = cpu();
    let mut call = |p: &mut PerCpu, nr: u64, cptr: u64, method: u64, xfer: u64| {
        syscall_dispatch(p, &mut cs, &mut mem, 1, nr, cptr, method, 0, 0, 0, xfer)
    };
    let answer = |status: Status, reply: u64| SyscallOutcome::Return(SyscallRet { status: status.code(), reply });
    assert_eq!(call(&mut p, 2, c, 1, CPTR_NULL), answer(Status::ErrMethod, 0));
    assert_eq!(p, PerCpu { reply_cptr: CPTR_NULL, ..cpu() });
    for (cptr, method, xfer) in [(c + 0x1_0000, 1, CPTR_NULL), (c, 0x1_0001, CPTR_NULL), (c, 1, 0x1_ffff)] {
        assert_eq!(call(&mut p, SYS_CAP_INVOKE, cptr, method, xfer), answer(Status::ErrBadCPtr, 0));
    }
    assert_eq!(call(&mut p, SYS_CAP_INVOKE, c, M_ALLOC as u64, CPTR_NULL), answer(Status::Success, 0x100));
    assert_eq!(p.reply_cptr, CPTR_NULL);
    assert_eq!(call(&mut p, SYS_CAP_INVOKE, c, 9, CPTR_NULL), answer(Status::ErrMethod, 0));
}

#[test]
fn system_calls_that_wait() {
    let mut cs = CapSpace::new();
    let mut mem = memory(1);
    let ep = create_endpoint(&mut cs).unwrap();
    let a = delegate_from_root(&mut cs, 1, ep, Rights::all(), 0).unwrap() as u64;
    let b = delegate_from_root(&mut cs, 2, ep, Rights::all(), 0).unwrap() as u64;
    let queue = DeviceQueueDesc {
        desc_phys: 1,
        avail_phys: 2,
        used_phys: 3,
        buf_phys: 0x4000,
        doorbell_phys: 0xFE00_3124,
        qsize: 128,
    };
    let q = create_device_queue(&mut cs, Some(queue), 0, 0).unwrap() as u64;
    let mut p = cpu();
    assert_eq!(
        syscall_dispatch(&mut p, &mut cs, &mut mem, 0, 1, q, DQ_MAP as u64, 0, 0, 0, CPTR_NULL),
        SyscallOutcome::MapPages(MapPlan::Queue(queue))
    );
    let (status, base) = map_finish(&mut cs, 0, MapPlan::Queue(queue), 5);
    assert_eq!(finish(&mut p, status.code(), base, CPTR_NONE), SyscallRet { status: 0, reply: DQ_BASE });
    assert_eq!(
        syscall_dispatch(&mut p, &mut cs, &mut mem, 0, 1, q, DQ_SUBMIT as u64, 9, 0, 0, CPTR_NULL),
        SyscallOutcome::ReadBlock(9)
    );
    set_current_domain(&mut cs, 1);
    assert_eq!(
        syscall_dispatch(&mut p, &mut cs, &mut mem, 1, 1, a, E_RECV as u64, 0, 0, 0, CPTR_NULL),
        SyscallOutcome::ParkRecv(0)
    );
    set_current_domain(&mut cs, 2);
    let wake = Wake { task: 1, status: Status::Success, reply: 55, cptr: CPTR_NONE };
    assert_eq!(
        syscall_dispatch(&mut p, &mut cs, &mut mem, 2, 1, b, E_SEND as u64, 55, 0, 0, CPTR_NULL),
        SyscallOutcome::WakeAndReturn(wake, SyscallRet { status: 0, reply: 0 })
    );
    assert_eq!(
        syscall_dispatch(&mut p, &mut cs, &mut mem, 2, 1, b, E_SEND as u64, 56, 0, 0, CPTR_NULL),
        SyscallOutcome::ParkSend(0)
    );
    let r = finish(&mut p, wake.status.code(), wake.reply, 7);
    assert_eq!((r, p.reply_cptr), (SyscallRet { status: 0, reply: 55 }, 7));
    assert_eq!(driver_params(&queue, 32_700), [0x4000, 32_700, 128, 0x124]);
}

#[test]
fn user_tasks_write_or_execute() {
    let s = setup_user_task(0x40_0000, 0x7f_f000);
    assert_eq!((s.entry, s.stack_top), (0x40_0000, 0x80_0000));
    assert_eq!(s.code, UserPage { va: 0x40_0000, writable: false, executable: true });
    assert_eq!(s.stack, UserPage { va: 0x7f_f000, writable: true, executable: false });
    assert_eq!(ObjectKind::from_raw(8).raw(), ObjectKind::EXTENT);
}
