//! The supervisor: what becomes of a domain that has died.
//!
//! One domain may be registered for restart, with a budget. Each time it dies it is
//! given fresh capabilities and admitted again, until the budget is used up; then it
//! stays dead.
use crate::capability::Rights;
use crate::capspace::{delegate_from_root, init_root, mint_timeslice, reap_domain, CapSpace};
use crate::sched::{admit_user, resume_next, terminate_current, Admitted, Scheduler, Spawned};
use vstd::prelude::*;

verus! {

/// The domain that may be restarted.
pub const FAULT_DOMAIN: u16 = 4;

/// The deadline and the period of a restarted task, in nanoseconds.
pub const RESTART_PERIOD: u64 = 5_000_000;

/// How much of each period a restarted task asks for, in nanoseconds.
pub const RESTART_BUDGET: u64 = 1_000_000;

/// Where the registered task starts, its stack, and how often it may be restarted.
#[derive(Clone, Copy, Debug, PartialEq, Eq, Structural)]
pub struct Supervisor {
    pub entry: u64,
    pub stack_top: u64,
    pub restarts: u8,
}

impl Supervisor {
    /// Nothing is registered.
    pub fn new() -> (r: Supervisor)
        ensures
            r == (Supervisor { entry: 0, stack_top: 0, restarts: 0 }),
    {
        Supervisor { entry: 0, stack_top: 0, restarts: 0 }
    }
}

/// Registers the domain for `budget` restarts.
pub fn register_faulter(sup: &mut Supervisor, entry: u64, stack_top: u64, budget: u8)
    ensures
        *final(sup) == (Supervisor { entry, stack_top, restarts: budget }),
{
    sup.entry = entry;
    sup.stack_top = stack_top;
    sup.restarts = budget;
}

/// What was done about a death.
#[derive(Clone, Copy, Debug)]
pub enum Restart {
    /// The domain is not registered.
    NotRegistered,
    /// The budget is used up.
    StaysDead,
    /// The domain runs again, with its new task and memory capability.
    Restarted(Spawned, u16),
    /// The domain got its capabilities but was not admitted.
    NotAdmitted,
    /// The domain could not be given its capabilities.
    NoCapabilities,
}

/// Where the machine's part of starting a task is: the selectors of user segments and
/// the task stacks.
#[derive(Clone, Copy, Debug, PartialEq, Eq, Structural)]
pub struct TaskSetup {
    pub user_cs: u16,
    pub user_ss: u16,
    pub stacks_base: u64,
}

/// The capabilities for a restart: a memory object of its own, of which the domain may
/// only invoke, and a time slice. Each step is tried even if the one before failed,
/// except that what was not created cannot be delegated.
pub open spec fn regranted(
    v: crate::capspace::SpaceView,
    v2: crate::capspace::SpaceView,
    mem: Option<u16>,
    ts: Option<u16>,
) -> bool {
    exists|v_mem: crate::capspace::SpaceView, root: Option<u16>, v_del: crate::capspace::SpaceView|
        {
            &&& #[trigger] crate::capspace::created(
                v,
                v_mem,
                crate::capability::ObjectKind::MEMORY,
                crate::capspace::ROOT_MEMORY_RIGHTS,
                root,
            )
            &&& match root {
                Some(m) => crate::capspace::root_delegated(
                    v_mem,
                    v_del,
                    FAULT_DOMAIN as int,
                    m,
                    Rights::of(Rights::INVOKE),
                    0,
                    mem,
                ),
                None => v_del == v_mem && mem is None,
            }
            &&& #[trigger] crate::capspace::created(
                v_del,
                v2,
                crate::capability::ObjectKind::TIME_SLICE,
                Rights::INVOKE,
                ts,
            )
        }
}

/// The supervisor after a death of the registered domain: one restart less, if any was
/// left.
pub open spec fn after_death(sup: Supervisor) -> Supervisor {
    if sup.restarts == 0 {
        sup
    } else {
        Supervisor { restarts: (sup.restarts - 1) as u8, ..sup }
    }
}

/// The supervisor after `n` deaths of the registered domain.
pub open spec fn after_deaths(sup: Supervisor, n: nat) -> Supervisor
    decreases n,
{
    if n == 0 {
        sup
    } else {
        after_death(after_deaths(sup, (n - 1) as nat))
    }
}

/// What acting on the death of a domain does. `tasks` are the tasks without the dead one.
/// If the domain is registered and has restarts left, it is given fresh capabilities and
/// admitted again at `now`; otherwise nothing changes.
pub open spec fn death_acted(
    sup: Supervisor,
    sup2: Supervisor,
    v: crate::capspace::SpaceView,
    v2: crate::capspace::SpaceView,
    tasks: Seq<crate::sched::Task>,
    tasks2: Seq<crate::sched::Task>,
    domain: u16,
    now: u64,
    setup: TaskSetup,
    r: Restart,
) -> bool {
    if domain != FAULT_DOMAIN {
        r is NotRegistered && sup2 == sup && v2 == v && tasks2 == tasks
    } else if sup.restarts == 0 {
        r is StaysDead && sup2 == sup && v2 == v && tasks2 == tasks
    } else {
        &&& sup2 == after_death(sup)
        &&& exists|mem: Option<u16>, ts: Option<u16>| #[trigger]
            regranted(v, v2, mem, ts) && match r {
                Restart::Restarted(sp, fm) => {
                    &&& mem == Some(fm)
                    &&& ts is Some
                    &&& crate::capspace::admit_status(v2, ts->0) == crate::table::Status::Success
                    &&& crate::sched::is_lowest_free_task(tasks, sp.task as int)
                    &&& sp.frame@ == crate::sched::start_frame(
                        sup.entry,
                        setup.user_cs,
                        sup.stack_top,
                        setup.user_ss,
                        fm as u64,
                    )
                    &&& sp.frame_ptr == crate::sched::task_stack_top(
                        setup.stacks_base,
                        sp.task as int,
                    ) - 160
                    &&& tasks2 == tasks.update(
                        sp.task as int,
                        crate::sched::Task {
                            rsp: sp.frame_ptr,
                            present: true,
                            domain: FAULT_DOMAIN,
                            deadline: crate::sched::plus(now, RESTART_PERIOD),
                            period: RESTART_PERIOD,
                            budget: RESTART_BUDGET,
                            ..crate::sched::task_empty()
                        },
                    )
                },
                Restart::NotAdmitted => {
                    &&& mem is Some
                    &&& ts is Some
                    &&& crate::capspace::admit_status(v2, ts->0)
                        != crate::table::Status::Success || crate::sched::tasks_full(tasks)
                    &&& tasks2 == tasks
                },
                Restart::NoCapabilities => (mem is None || ts is None) && tasks2 == tasks,
                _ => false,
            }
    }
}

/// Gives the registered domain the capabilities to start with: its own memory object, which
/// it may only invoke, and, in the root, a time slice with which it can be admitted.
pub fn grant(cs: &mut CapSpace) -> (r: (Option<u16>, Option<u16>))
    ensures
        regranted(old(cs)@, final(cs)@, r.0, r.1),
        r.0 matches Some(m) ==> {
            let v = final(cs)@;
            let table = v.domains[FAULT_DOMAIN as int];
            &&& crate::table::slot_status(table, v.objects, m) == crate::table::Status::Success
            &&& table[m as int]->0.type_tag.tag == crate::capability::ObjectKind::MEMORY
            &&& table[m as int]->0.rights.bits == Rights::INVOKE
        },
        r.1 matches Some(ts) ==> crate::capspace::admit_status(final(cs)@, ts)
            == crate::table::Status::Success,
{
    proof {
        lemma_invoke_right();
    }
    let root = init_root(cs);
    let ghost v_mem = cs@;
    let mem = match root {
        Some(m) => delegate_from_root(
            cs,
            FAULT_DOMAIN as usize,
            m,
            Rights::from_bits_truncate(Rights::INVOKE),
            0,
        ),
        None => None,
    };
    let ghost v_del = cs@;
    let ts = mint_timeslice(cs);
    proof {
        assert(crate::capspace::created(
            old(cs)@,
            v_mem,
            crate::capability::ObjectKind::MEMORY,
            crate::capspace::ROOT_MEMORY_RIGHTS,
            root,
        ));
        assert(crate::capspace::created(
            v_del,
            cs@,
            crate::capability::ObjectKind::TIME_SLICE,
            Rights::INVOKE,
            ts,
        ));
        assert(regranted(old(cs)@, cs@, mem, ts));
    }
    (mem, ts)
}

/// Bit facts about the right to invoke.
proof fn lemma_invoke_right()
    by (bit_vector)
    ensures
        0x04u16 & 0xFF == 0x04,
        0x2fu16 & 0xFF == 0x2f,
        0x2fu16 & 0x04 == 0x04,
        0x04u16 & 0x04 == 0x04,
{
}

/// Acts on the death of a domain, after its task is gone and its authority was taken
/// away.
pub fn on_domain_death(
    sup: &mut Supervisor,
    cs: &mut CapSpace,
    s: &mut Scheduler,
    domain: u16,
    now: u64,
    setup: TaskSetup,
) -> (r: Restart)
    requires
        old(s).counted(),
        crate::sched::stacks_in_range(setup.stacks_base),
    ensures
        final(s).current == old(s).current,
        final(s).counted(),
        death_acted(
            *old(sup),
            *final(sup),
            old(cs)@,
            final(cs)@,
            old(s).tasks@,
            final(s).tasks@,
            domain,
            now,
            setup,
            r,
        ),
{
    if domain != FAULT_DOMAIN {
        return Restart::NotRegistered;
    }
    let left: u8 = sup.restarts;
    if left == 0 {
        return Restart::StaysDead;
    }
    sup.restarts = left - 1;
    let (mem, ts) = grant(cs);
    match (mem, ts) {
        (Some(fm), Some(ft)) => {
            match admit_user(
                s,
                cs,
                sup.entry,
                sup.stack_top,
                fm,
                ft,
                FAULT_DOMAIN,
                RESTART_PERIOD,
                RESTART_PERIOD,
                RESTART_BUDGET,
                now,
                setup.user_cs,
                setup.user_ss,
                setup.stacks_base,
            ) {
                Admitted::Task(sp) => Restart::Restarted(sp, fm),
                _ => Restart::NotAdmitted,
            }
        },
        _ => Restart::NoCapabilities,
    }
}

/// What was done about a fault of the running task: the task and the domain that are
/// gone, the pages to unmap, the supervisor's part, and the task to switch to.
pub struct Terminated {
    pub task: usize,
    pub domain: u16,
    pub pages: Vec<u64>,
    pub restart: Restart,
    pub next: Option<usize>,
}

/// The tasks after the running one was terminated.
pub open spec fn without_current(s: Scheduler) -> Seq<crate::sched::Task> {
    s.tasks@.update(
        s.current as int,
        crate::sched::Task { present: false, blocked: false, ..s.tasks@[s.current as int] },
    )
}

/// What terminating the running task does: the task is gone, its domain is reaped, the
/// supervisor acts on the death, and the next task is picked and its domain becomes the
/// running one.
pub open spec fn terminated(
    sup: Supervisor,
    sup2: Supervisor,
    v: crate::capspace::SpaceView,
    v2: crate::capspace::SpaceView,
    s: Scheduler,
    s2: Scheduler,
    now: u64,
    setup: TaskSetup,
    restart: Restart,
    next: Option<usize>,
) -> bool {
    let domain = s.tasks@[s.current as int].domain;
    exists|v_acted: crate::capspace::SpaceView, tasks: Seq<crate::sched::Task>|
        {
            &&& #[trigger] death_acted(
                sup,
                sup2,
                crate::capspace::reaped(v, domain, s.current as u16),
                v_acted,
                without_current(s),
                tasks,
                domain,
                now,
                setup,
                restart,
            )
            &&& s2.tasks@ == Seq::new(
                crate::sched::MAX_TASKS as nat,
                |i: int| crate::sched::rolled(tasks[i], now),
            )
            &&& match next {
                Some(n) => {
                    &&& crate::sched::is_next(s2.tasks@, s.current as int, n as int)
                    &&& s2.current == n
                    &&& v2 == crate::sched::in_domain_of(v_acted, s2)
                },
                None => {
                    &&& s2.current == s.current
                    &&& v2 == v_acted
                    &&& forall|j: int|
                        0 <= j < crate::sched::MAX_TASKS ==> !crate::sched::runnable(
                            #[trigger] s2.tasks@[j],
                        )
                },
            }
        }
}

/// Terminates the running task after a fault in user mode: its domain loses all of its
/// authority, the supervisor may restart it, and another task is switched to.
pub fn terminate(
    sup: &mut Supervisor,
    cs: &mut CapSpace,
    s: &mut Scheduler,
    now: u64,
    setup: TaskSetup,
) -> (r: Terminated)
    requires
        old(s).wf(),
        crate::sched::stacks_in_range(setup.stacks_base),
    ensures
        r.task == old(s).current,
        r.domain == old(s).tasks@[old(s).current as int].domain,
        r.pages@ == if r.domain < crate::capspace::MAX_DOMAINS {
            old(cs)@.maps[r.domain as int]
        } else {
            Seq::empty()
        },
        final(s).counted(),
        r.next is Some ==> final(s).wf(),
        terminated(
            *old(sup),
            *final(sup),
            old(cs)@,
            final(cs)@,
            *old(s),
            *final(s),
            now,
            setup,
            r.restart,
            r.next,
        ),
{
    let (task, domain) = terminate_current(s);
    let pages = reap_domain(cs, domain, task as u16);
    let restart = on_domain_death(sup, cs, s, domain, now, setup);
    assert(death_acted(
        *old(sup),
        *sup,
        crate::capspace::reaped(old(cs)@, domain, old(s).current as u16),
        cs@,
        without_current(*old(s)),
        s.tasks@,
        domain,
        now,
        setup,
        restart,
    ));
    let next = resume_next(s, cs, now);
    Terminated { task, domain, pages, restart, next }
}

/// A crash loop ends: a domain registered for some number of restarts is restarted at
/// each of that many deaths and at no later one.
pub proof fn law_restart_budget_runs_out(sup: Supervisor, n: nat)
    ensures
        after_deaths(sup, n).restarts == if n <= sup.restarts {
            sup.restarts - n
        } else {
            0
        },
        after_deaths(sup, n).entry == sup.entry,
        after_deaths(sup, n).stack_top == sup.stack_top,
    decreases n,
{
    if n > 0 {
        law_restart_budget_runs_out(sup, (n - 1) as nat);
    }
}

/// Giving capabilities for a restart touches the root's free slots, free objects and the
/// table of the registered domain, and nothing else.
proof fn lemma_regranted_adds(
    v: crate::capspace::SpaceView,
    v2: crate::capspace::SpaceView,
    mem: Option<u16>,
    ts: Option<u16>,
    d: int,
    i: int,
    o: int,
)
    requires
        v.wf(),
        regranted(v, v2, mem, ts),
        0 < d < crate::capspace::MAX_DOMAINS,
        0 <= i < crate::table::CAP_TABLE_SLOTS,
        0 <= o < crate::table::OBJECT_TABLE_SIZE,
    ensures
        d != FAULT_DOMAIN ==> v2.domains[d] == v.domains[d],
        v.domains[0][i] is Some ==> v2.domains[0][i] == v.domains[0][i],
        v.objects[o].present ==> v2.objects[o] == v.objects[o],
        v2.endpoints == v.endpoints,
{
}

/// A fault is contained. Whatever the supervisor does, every task but the terminated one
/// is as before, up to its deadline and unless its number was free; the tables of all
/// domains but the dead one and the root are as before; no capability of the root is
/// lost; every object that was there is as before; and an endpoint changes only if the dead task
/// waited on it.
pub proof fn law_fault_is_contained(
    sup: Supervisor,
    sup2: Supervisor,
    v: crate::capspace::SpaceView,
    v2: crate::capspace::SpaceView,
    s: Scheduler,
    s2: Scheduler,
    now: u64,
    setup: TaskSetup,
    restart: Restart,
    next: Option<usize>,
    t: int,
    d: int,
    i: int,
    o: int,
)
    requires
        v.wf(),
        s.wf(),
        0 < s.tasks@[s.current as int].domain < crate::capspace::MAX_DOMAINS,
        terminated(sup, sup2, v, v2, s, s2, now, setup, restart, next),
        0 <= t < crate::sched::MAX_TASKS,
        0 < d < crate::capspace::MAX_DOMAINS,
        0 <= i < crate::table::CAP_TABLE_SLOTS,
        0 <= o < crate::table::OBJECT_TABLE_SIZE,
    ensures
        t != s.current && s.tasks@[t].present ==> s2.tasks@[t] == crate::sched::rolled(
            s.tasks@[t],
            now,
        ),
        d != s.tasks@[s.current as int].domain ==> v2.domains[d] == v.domains[d],
        v.domains[0][i] is Some ==> v2.domains[0][i] == v.domains[0][i],
        v.objects[o].present ==> v2.objects[o] == v.objects[o],
        v.endpoints[o].peer_task != s.current ==> v2.endpoints[o] == v.endpoints[o],
        next is Some ==> next->0 < crate::sched::MAX_TASKS && crate::sched::runnable(
            s2.tasks@[next->0 as int],
        ),
{
    let domain = s.tasks@[s.current as int].domain;
    let (v_acted, tasks) = choose|v_acted: crate::capspace::SpaceView, tasks: Seq<crate::sched::Task>|
        {
            &&& #[trigger] death_acted(
                sup,
                sup2,
                crate::capspace::reaped(v, domain, s.current as u16),
                v_acted,
                without_current(s),
                tasks,
                domain,
                now,
                setup,
                restart,
            )
            &&& s2.tasks@ == Seq::new(
                crate::sched::MAX_TASKS as nat,
                |i: int| crate::sched::rolled(tasks[i], now),
            )
            &&& match next {
                Some(n) => {
                    &&& crate::sched::is_next(s2.tasks@, s.current as int, n as int)
                    &&& s2.current == n
                    &&& v2 == crate::sched::in_domain_of(v_acted, s2)
                },
                None => {
                    &&& s2.current == s.current
                    &&& v2 == v_acted
                    &&& forall|j: int|
                        0 <= j < crate::sched::MAX_TASKS ==> !crate::sched::runnable(
                            #[trigger] s2.tasks@[j],
                        )
                },
            }
        };
    let gone = crate::capspace::reaped(v, domain, s.current as u16);
    if domain == FAULT_DOMAIN && sup.restarts != 0 {
        let (mem, ts) = choose|mem: Option<u16>, ts: Option<u16>| #[trigger]
            regranted(gone, v_acted, mem, ts);
        lemma_regranted_adds(gone, v_acted, mem, ts, d, i, o);
    }
}

/// A restarted domain starts over with little: if its table was empty, it holds one
/// capability afterwards, to a memory object, of which it may only invoke.
pub proof fn law_restarted_domain_starts_over(
    v: crate::capspace::SpaceView,
    v2: crate::capspace::SpaceView,
    mem: u16,
    ts: Option<u16>,
)
    requires
        v.wf(),
        forall|i: int|
            0 <= i < crate::table::CAP_TABLE_SLOTS ==> (
            #[trigger] v.domains[FAULT_DOMAIN as int][i]) is None,
        regranted(v, v2, Some(mem), ts),
    ensures
        mem == 0,
        v2.domains[FAULT_DOMAIN as int][0] is Some,
        v2.domains[FAULT_DOMAIN as int][0]->0.rights == Rights::of(Rights::INVOKE),
        v2.domains[FAULT_DOMAIN as int][0]->0.type_tag.tag
            == crate::capability::ObjectKind::MEMORY,
        forall|i: int|
            1 <= i < crate::table::CAP_TABLE_SLOTS ==> (
            #[trigger] v2.domains[FAULT_DOMAIN as int][i]) is None,
{
    assert(v.domains[FAULT_DOMAIN as int][0] is None);
    assert(0x2fu16 & 0xFF & (0x04u16 & 0xFF) == 0x04u16 & 0xFF) by (bit_vector);
}

/// A restarted task starts where it was registered to: at its entry, on its stack, with its new
/// memory capability as the argument. It belongs to the registered domain, takes a task number
/// that was free, and has five milliseconds to its deadline. One restart is used up, and all
/// other tasks are as before.
pub proof fn law_restarted_task_starts_where_registered(
    sup: Supervisor,
    sup2: Supervisor,
    v: crate::capspace::SpaceView,
    v2: crate::capspace::SpaceView,
    tasks: Seq<crate::sched::Task>,
    tasks2: Seq<crate::sched::Task>,
    domain: u16,
    now: u64,
    setup: TaskSetup,
    sp: Spawned,
    fm: u16,
    t: int,
)
    requires
        tasks.len() == 5,
        0 <= t < 5,
        death_acted(
            sup,
            sup2,
            v,
            v2,
            tasks,
            tasks2,
            domain,
            now,
            setup,
            Restart::Restarted(sp, fm),
        ),
    ensures
        domain == 4,
        sup.restarts > 0,
        sup2.restarts == sup.restarts - 1,
        sup2.entry == sup.entry,
        sup2.stack_top == sup.stack_top,
        1 <= sp.task < 5,
        !tasks[sp.task as int].present,
        1 <= t < sp.task ==> tasks[t].present,
        t != sp.task ==> tasks2[t] == tasks[t],
        tasks2[sp.task as int].present,
        !tasks2[sp.task as int].blocked,
        tasks2[sp.task as int].domain == 4,
        tasks2[sp.task as int].rsp == sp.frame_ptr,
        tasks2[sp.task as int].period == 5_000_000,
        tasks2[sp.task as int].budget == 1_000_000,
        now + 5_000_000 <= u64::MAX ==> tasks2[sp.task as int].deadline == now + 5_000_000,
        sp.frame@[15] == sup.entry,
        sp.frame@[16] == setup.user_cs,
        sp.frame@[17] == 0x202,
        sp.frame@[18] == sup.stack_top,
        sp.frame@[19] == setup.user_ss,
        sp.frame@[9] == fm,
        setup.stacks_base + sp.task * 65536 < sp.frame_ptr,
        sp.frame_ptr + 160 <= setup.stacks_base + (sp.task + 1) * 65536,
{
}

/// Who is not restarted: a domain that is not registered, and one that has no restart left. Then
/// nothing changes at all. A domain that is registered and has restarts left gets another
/// answer.
pub proof fn law_who_stays_dead(
    sup: Supervisor,
    sup2: Supervisor,
    v: crate::capspace::SpaceView,
    v2: crate::capspace::SpaceView,
    tasks: Seq<crate::sched::Task>,
    tasks2: Seq<crate::sched::Task>,
    domain: u16,
    now: u64,
    setup: TaskSetup,
    r: Restart,
)
    requires
        death_acted(sup, sup2, v, v2, tasks, tasks2, domain, now, setup, r),
    ensures
        r is NotRegistered <==> domain != 4,
        r is StaysDead <==> domain == 4 && sup.restarts == 0,
        domain != 4 || sup.restarts == 0 ==> sup2 == sup && v2 == v && tasks2 == tasks,
        domain == 4 && sup.restarts > 0 ==> sup2.restarts == sup.restarts - 1 && sup2.entry
            == sup.entry && sup2.stack_top == sup.stack_top,
        r is NotAdmitted || r is NoCapabilities ==> tasks2 == tasks,
{
}

/// A restart fails only where it must: once the capabilities were given, only for want of a
/// task number.
pub proof fn law_restart_fails_only_when_full(
    sup: Supervisor,
    sup2: Supervisor,
    v: crate::capspace::SpaceView,
    v2: crate::capspace::SpaceView,
    tasks: Seq<crate::sched::Task>,
    tasks2: Seq<crate::sched::Task>,
    domain: u16,
    now: u64,
    setup: TaskSetup,
    t: int,
)
    requires
        v.wf(),
        death_acted(
            sup,
            sup2,
            v,
            v2,
            tasks,
            tasks2,
            domain,
            now,
            setup,
            Restart::NotAdmitted,
        ),
        1 <= t < 5,
    ensures
        tasks[t].present,
{
    lemma_invoke_right();
    let (mem, ts) = choose|mem: Option<u16>, ts: Option<u16>| #[trigger]
        regranted(v, v2, mem, ts) && mem is Some && ts is Some && (crate::capspace::admit_status(
            v2,
            ts->0,
        ) != crate::table::Status::Success || crate::sched::tasks_full(tasks));
    let (v_mem, root, v_del) = choose|
        v_mem: crate::capspace::SpaceView,
        root: Option<u16>,
        v_del: crate::capspace::SpaceView,
    |
        #[trigger] crate::capspace::created(
            v,
            v_mem,
            crate::capability::ObjectKind::MEMORY,
            crate::capspace::ROOT_MEMORY_RIGHTS,
            root,
        ) && root is Some && crate::capspace::root_delegated(
            v_mem,
            v_del,
            FAULT_DOMAIN as int,
            root->0,
            Rights::of(Rights::INVOKE),
            0,
            mem,
        ) && #[trigger] crate::capspace::created(
            v_del,
            v2,
            crate::capability::ObjectKind::TIME_SLICE,
            Rights::INVOKE,
            ts,
        );
    assert(v_del.wf());
    assert(crate::capspace::admit_status(v2, ts->0) == crate::table::Status::Success);
}

/// A terminated task is gone, unless its number went to the task that was restarted; and a task
/// to switch to is named whenever one can run.
pub proof fn law_terminated_task_is_gone(
    sup: Supervisor,
    sup2: Supervisor,
    v: crate::capspace::SpaceView,
    v2: crate::capspace::SpaceView,
    s: Scheduler,
    s2: Scheduler,
    now: u64,
    setup: TaskSetup,
    restart: Restart,
    next: Option<usize>,
    t: int,
)
    requires
        s.wf(),
        terminated(sup, sup2, v, v2, s, s2, now, setup, restart, next),
        0 <= t < 5,
    ensures
        !(restart is Restarted) ==> !s2.tasks@[s.current as int].present,
        next is None ==> !(s2.tasks@[t].present && !s2.tasks@[t].blocked),
        next is Some ==> s2.current == next->0 && s2.tasks@[next->0 as int].present
            && !s2.tasks@[next->0 as int].blocked && v2.current == s2.tasks@[next->0 as int].domain,
        restart is NotRegistered <==> s.tasks@[s.current as int].domain != 4,
{
    assert(next is None ==> !crate::sched::runnable(s2.tasks@[t]));
}

} // verus!
