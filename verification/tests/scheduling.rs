//! The scheduler and the supervisor.
use cairn::capability::{ObjectKind, Rights};
use cairn::capspace::{
    cap_invoke_in, cap_invoke_ipc, create_endpoint, create_notification, delegate_from_root, init_root, map_finish,
    mint_timeslice, revoke_timeslice, CapSpace, EpState, Invoked, MapPlan, CPTR_NONE, E_RECV,
    EXTENT_MAP_BASE, M_ALLOC, M_FREE,
};
use cairn::memory::Memory;
use cairn::sched::{
    admit_user, block_current, current_task, init, pick_next, resume_next, schedule_tick, spawn,
    stack_top_of, take_ipc_result, terminate_current, unblock, Admitted, IpcResult, Scheduler,
    MAX_TASKS, NO_DEADLINE, TASK_STACK_SIZE,
};
use cairn::supervisor::{
    on_domain_death, register_faulter, terminate, Restart, Supervisor, TaskSetup, FAULT_DOMAIN,
    RESTART_BUDGET, RESTART_PERIOD,
};
use cairn::table::Status;

const STACKS: u64 = 0x10_0000;

fn started() -> Scheduler {
    let mut s = Scheduler::new();
    init(&mut s);
    s
}

fn setup() -> TaskSetup {
    TaskSetup { user_cs: 0x23, user_ss: 0x1b, stacks_base: STACKS }
}

/// Admits a task of a domain with a time slice of its own.
fn enter(s: &mut Scheduler, cs: &mut CapSpace, domain: u16, deadline: u64, period: u64) -> usize {
    let ts = mint_timeslice(cs).unwrap();
    match admit_user(s, cs, 0x40_0000, 0x80_0000, 3, ts, domain, deadline, period, 7, 0, 0x23, 0x1b, STACKS) {
        Admitted::Task(sp) => sp.task,
        _ => panic!("not admitted"),
    }
}

#[test]
fn spawned_task_starts_on_its_own_stack() {
    let mut s = started();
    assert_eq!((s.num, current_task(&s)), (1, 0));
    let sp = spawn(&mut s, 0x1234, 0x08, 0x10, STACKS).unwrap();
    assert_eq!(sp.task, 1);
    let top = STACKS + 2 * TASK_STACK_SIZE;
    assert_eq!(stack_top_of(STACKS, 1), top);
    assert_eq!(sp.frame_ptr, top - 160);
    let mut want = [0u64; 20];
    want[15] = 0x1234;
    want[16] = 0x08;
    want[17] = 0x202;
    want[18] = top;
    want[19] = 0x10;
    assert_eq!(sp.frame, want);
    assert_eq!(s.tasks[1].rsp, top - 160);
    for i in 2..MAX_TASKS {
        assert_eq!(spawn(&mut s, 1, 8, 16, STACKS + 5).unwrap().task, i);
        assert_eq!(s.tasks[i].rsp % 16, 0);
    }
    assert!(spawn(&mut s, 1, 8, 16, STACKS).is_none());
    assert_eq!(s.num, MAX_TASKS);
}

#[test]
fn tasks_without_deadlines_take_turns() {
    let mut s = started();
    let mut cs = CapSpace::new();
    // Alone, the task goes on.
    assert_eq!(schedule_tick(&mut s, &mut cs, 0x77, 1), 0x77);
    assert_eq!(s.tasks[0].rsp, 0);
    let a = spawn(&mut s, 1, 8, 16, STACKS).unwrap();
    let b = spawn(&mut s, 2, 8, 16, STACKS).unwrap();
    assert_eq!(schedule_tick(&mut s, &mut cs, 0x100, 1), a.frame_ptr);
    assert_eq!(schedule_tick(&mut s, &mut cs, 0x200, 2), b.frame_ptr);
    assert_eq!(schedule_tick(&mut s, &mut cs, 0x300, 3), 0x100);
    assert_eq!(schedule_tick(&mut s, &mut cs, 0x400, 4), 0x200);
    assert_eq!(schedule_tick(&mut s, &mut cs, 0x500, 5), 0x300);
    assert_eq!(s.current, 2);
}

#[test]
fn earliest_deadline_runs() {
    let mut s = started();
    let mut cs = CapSpace::new();
    let slow = enter(&mut s, &mut cs, 1, 13, 13);
    let fast = enter(&mut s, &mut cs, 2, 2, 2);
    assert_eq!(s.tasks[slow].budget, 7);
    assert_eq!(pick_next(&s), Some(fast));
    schedule_tick(&mut s, &mut cs, 1, 0);
    assert_eq!(s.current, fast);
    assert_eq!(cs.current, 2);
    // At 5 the next deadline of the fast one is 6, that of the slow one still 13.
    schedule_tick(&mut s, &mut cs, 1, 5);
    assert_eq!(s.current, fast);
    assert_eq!(s.tasks[fast].deadline, 6);
    // At 12 it is 14, so it is the other's turn.
    schedule_tick(&mut s, &mut cs, 1, 12);
    assert_eq!(s.tasks[fast].deadline, 14);
    assert_eq!(s.current, slow);
    assert_eq!(cs.current, 1);
    // A deadline that is met exactly has passed.
    schedule_tick(&mut s, &mut cs, 1, 13);
    assert_eq!(s.tasks[slow].deadline, 26);
    assert_eq!(s.current, fast);
    // Deadlines stop at the end of time.
    schedule_tick(&mut s, &mut cs, 1, u64::MAX);
    assert_eq!(s.tasks[fast].deadline, u64::MAX);
}

#[test]
fn equal_deadlines_go_to_the_lowest() {
    let mut s = started();
    let mut cs = CapSpace::new();
    let a = enter(&mut s, &mut cs, 1, 5, 5);
    let b = enter(&mut s, &mut cs, 2, 5, 5);
    schedule_tick(&mut s, &mut cs, 1, 0);
    assert_eq!(s.current, a);
    schedule_tick(&mut s, &mut cs, 1, 1);
    assert_eq!(s.current, a);
    // With the first waiting it is the second's.
    assert_eq!(block_current(&mut s, &mut cs, 9, 2), Some(b));
    assert_eq!(cs.current, 2);
}

#[test]
fn waiting_tasks_do_not_run_until_woken() {
    let mut s = started();
    let mut cs = CapSpace::new();
    let a = enter(&mut s, &mut cs, 3, 5, 5);
    schedule_tick(&mut s, &mut cs, 0x11, 0);
    assert_eq!(s.current, a);
    assert_eq!(block_current(&mut s, &mut cs, 0xAB, 1), Some(0));
    assert_eq!((s.tasks[a].rsp, s.tasks[a].blocked, cs.current), (0xAB, true, 0));
    // The deadline of a task that waits stays.
    schedule_tick(&mut s, &mut cs, 0x22, 100);
    assert_eq!((s.current, s.tasks[a].deadline), (0, 5));
    unblock(&mut s, a, 0, 0xCAFE, 4);
    assert_eq!(take_ipc_result(&s, a), IpcResult { status: 0, reply: 0xCAFE, cptr: 4 });
    assert_eq!(schedule_tick(&mut s, &mut cs, 0x33, 101), 0xAB);
    assert_eq!((s.current, cs.current), (a, 3));
    unblock(&mut s, 99, 1, 1, 1);
    // All waiting: nothing to switch to.
    s.tasks[0].blocked = true;
    assert_eq!(block_current(&mut s, &mut cs, 1, 102), None);
    assert_eq!(s.current, a);
    assert_eq!(pick_next(&s), None);
    assert_eq!(resume_next(&mut s, &mut cs, 103), None);
}

#[test]
fn admission_needs_live_time() {
    let mut s = started();
    let mut cs = CapSpace::new();
    let ts = mint_timeslice(&mut cs).unwrap();
    let mem = init_root(&mut cs).unwrap();
    let try_with = |s: &mut Scheduler, cs: &CapSpace, c: u16| {
        admit_user(s, cs, 0x40_0000, 0x80_0000, 9, c, 1, u64::MAX, 5, 1, 3, 0x23, 0x1b, STACKS)
    };
    match try_with(&mut s, &cs, ts) {
        Admitted::Task(sp) => {
            assert_eq!(sp.task, 1);
            let mut want = [0u64; 20];
            want[9] = 9;
            want[15] = 0x40_0000;
            want[16] = 0x23;
            want[17] = 0x202;
            want[18] = 0x80_0000;
            want[19] = 0x1b;
            assert_eq!(sp.frame, want);
            assert_eq!(s.tasks[1].deadline, NO_DEADLINE);
            assert_eq!(s.tasks[1].domain, 1);
        }
        _ => panic!("not admitted"),
    }
    assert!(matches!(try_with(&mut s, &cs, mem), Admitted::Denied(Status::ErrType)));
    assert!(matches!(try_with(&mut s, &cs, 77), Admitted::Denied(Status::ErrBadCPtr)));
    for _ in 2..MAX_TASKS {
        assert!(matches!(try_with(&mut s, &cs, ts), Admitted::Task(_)));
    }
    assert!(matches!(try_with(&mut s, &cs, ts), Admitted::Full));
    assert_eq!(revoke_timeslice(&mut cs, ts), Status::Success);
    assert!(matches!(try_with(&mut s, &cs, ts), Admitted::Denied(Status::ErrRevoked)));
}

#[test]
fn terminated_task_frees_its_number() {
    let mut s = started();
    let mut cs = CapSpace::new();
    let a = enter(&mut s, &mut cs, 4, 5, 5);
    schedule_tick(&mut s, &mut cs, 1, 0);
    assert_eq!(terminate_current(&mut s), (a, 4));
    assert_eq!(s.num, 1);
    assert!(!s.tasks[a].present);
    assert_eq!(resume_next(&mut s, &mut cs, 1), Some(0));
    assert_eq!(enter(&mut s, &mut cs, 1, 5, 5), a);
}

#[test]
fn crash_loop_ends() {
    let mut s = started();
    let mut cs = CapSpace::new();
    let mut sup = Supervisor::new();
    let task = enter(&mut s, &mut cs, FAULT_DOMAIN, 5, 5);
    register_faulter(&mut sup, 0x42_0000, 0x7e_0000, 2);
    for left in [1u8, 0] {
        schedule_tick(&mut s, &mut cs, 1, 0);
        assert_eq!(s.current, task);
        let t = terminate(&mut sup, &mut cs, &mut s, 1000, setup());
        assert_eq!((t.task, t.domain), (task, FAULT_DOMAIN));
        match t.restart {
            Restart::Restarted(sp, fm) => {
                assert_eq!((sp.task, fm), (task, 0));
                assert_eq!((sp.frame[15], sp.frame[18], sp.frame[9]), (0x42_0000, 0x7e_0000, 0));
            }
            _ => panic!("not restarted"),
        }
        assert_eq!(sup.restarts, left);
        assert_eq!(t.next, Some(task));
        assert_eq!(s.tasks[task].deadline, 1000 + RESTART_PERIOD);
        assert_eq!(s.tasks[task].budget, RESTART_BUDGET);
        let cap = cs.domains[FAULT_DOMAIN as usize].slots[0].unwrap();
        assert_eq!(cap.type_tag.raw(), ObjectKind::MEMORY);
        assert_eq!(cap.rights.bits(), Rights::INVOKE);
        assert!(cs.domains[FAULT_DOMAIN as usize].slots[1].is_none());
    }
    let t = terminate(&mut sup, &mut cs, &mut s, 1000, setup());
    assert!(matches!(t.restart, Restart::StaysDead));
    assert_eq!(t.next, Some(0));
    assert_eq!(s.num, 1);
    assert!(cs.domains[FAULT_DOMAIN as usize].slots[0].is_none());
}

#[test]
fn fault_leaves_the_others_alone() {
    let mut s = started();
    let mut cs = CapSpace::new();
    let mut mem = Memory::new();
    let mut sup = Supervisor::new();
    let ep = create_endpoint(&mut cs).unwrap();
    let n = create_notification(&mut cs).unwrap();
    let grant = Rights::all();
    let e1 = delegate_from_root(&mut cs, 1, ep, grant, 0).unwrap();
    let n2 = delegate_from_root(&mut cs, 2, n, grant, 0).unwrap();
    let a = enter(&mut s, &mut cs, 1, 5, 5);
    let b = enter(&mut s, &mut cs, 2, 9, 9);
    schedule_tick(&mut s, &mut cs, 1, 0);
    assert_eq!(s.current, a);
    cap_invoke_ipc(&mut cs, &mut mem, a as u16, e1, E_RECV, 0, CPTR_NONE);
    map_finish(&mut cs, 1, MapPlan::Extent(0x5000), 1);
    let t = terminate(&mut sup, &mut cs, &mut s, 1, setup());
    assert!(matches!(t.restart, Restart::NotRegistered));
    assert_eq!(t.pages, vec![EXTENT_MAP_BASE]);
    assert_eq!(t.next, Some(b));
    assert_eq!(cs.current, 2);
    assert_eq!(cs.endpoints[0].state, EpState::Idle);
    assert!(cs.domains[1].slots[e1 as usize].is_none());
    assert!(cs.domains[2].slots[n2 as usize].is_some());
    assert!(s.tasks[b].present && !s.tasks[a].present);
    assert_eq!(cap_invoke_in(&mut cs, &mut mem, 1, e1, E_RECV, 0), Invoked::Done(Status::ErrBadCPtr, 0));
}

#[test]
fn restart_can_fail() {
    let mut sup = Supervisor::new();
    register_faulter(&mut sup, 1, 2, 5);
    // No free task.
    let mut s = started();
    let mut cs = CapSpace::new();
    for _ in 1..MAX_TASKS {
        spawn(&mut s, 1, 8, 16, STACKS);
    }
    let r = on_domain_death(&mut sup, &mut cs, &mut s, FAULT_DOMAIN, 0, setup());
    assert!(matches!(r, Restart::NotAdmitted));
    assert_eq!(sup.restarts, 4);
    // No slot in the table of the domain.
    let mut s = started();
    let mut cs = CapSpace::new();
    let m = init_root(&mut cs).unwrap();
    while delegate_from_root(&mut cs, FAULT_DOMAIN as usize, m, Rights::all(), 0).is_some() {}
    let r = on_domain_death(&mut sup, &mut cs, &mut s, FAULT_DOMAIN, 0, setup());
    assert!(matches!(r, Restart::NoCapabilities));
    assert_eq!(sup.restarts, 3);
    assert_eq!(s.num, 1);
    let r = on_domain_death(&mut sup, &mut cs, &mut s, 2, 0, setup());
    assert!(matches!(r, Restart::NotRegistered));
    assert_eq!(sup.restarts, 3);
    let mut mem = Memory::new();
    assert_eq!(cap_invoke_in(&mut cs, &mut mem, 0, m, M_ALLOC, 0), Invoked::Done(Status::ErrRights, 0));
    assert_eq!(cap_invoke_in(&mut cs, &mut mem, 0, m, M_FREE, 0), Invoked::Done(Status::ErrMethod, 0));
}
