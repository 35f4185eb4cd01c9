//! The scheduler: which task runs next, who waits, and how a new task starts.
//!
//! A task that is switched out leaves its registers on its own stack; what the
//! scheduler keeps is where. The task with the earliest deadline runs, and of tasks
//! with the same deadline the lowest one. Tasks without a deadline come last and take
//! turns.
use crate::capspace::{admit_check, set_current_domain, CapSpace};
use crate::table::Status;
use vstd::prelude::*;

verus! {

/// Tasks that there can be. Task 0 is the boot thread, which idles.
pub const MAX_TASKS: usize = 5;

/// Bytes of stack that a task gets.
pub const TASK_STACK_SIZE: u64 = 65536;

/// Words in a saved context: 15 registers, then what `iretq` takes.
pub const FRAME_WORDS: usize = 20;

/// Where the first argument register stands in a saved context.
pub const FRAME_RDI: usize = 9;

/// The flags that a task starts with: interrupts are enabled.
pub const START_FLAGS: u64 = 0x202;

/// A deadline that never comes.
pub const NO_DEADLINE: u64 = 0xffff_ffff_ffff_ffff;

/// What a task that waited is woken with: status, reply and received capability.
#[derive(Clone, Copy, Debug, PartialEq, Eq, Structural)]
pub struct IpcResult {
    pub status: u64,
    pub reply: u64,
    pub cptr: u16,
}

/// One task.
#[derive(Clone, Copy, Debug, PartialEq, Eq, Structural)]
pub struct Task {
    /// Where the saved context is.
    pub rsp: u64,
    pub present: bool,
    /// The task waits to be woken.
    pub blocked: bool,
    pub domain: u16,
    /// When the task is to be done, and how far apart its deadlines are, in
    /// nanoseconds. A period of 0 means that there is no next deadline.
    pub deadline: u64,
    pub period: u64,
    /// How much of each period the task asked for, in nanoseconds. It is kept, not
    /// enforced.
    pub budget: u64,
    pub result: IpcResult,
}

/// All tasks, how many there are, and which one runs.
pub struct Scheduler {
    pub tasks: [Task; MAX_TASKS],
    pub num: usize,
    pub current: usize,
}

/// No task.
pub open spec fn task_empty() -> Task {
    Task {
        rsp: 0,
        present: false,
        blocked: false,
        domain: 0,
        deadline: NO_DEADLINE,
        period: 0,
        budget: 0,
        result: IpcResult { status: 0, reply: 0, cptr: 0xffff },
    }
}

fn empty_task() -> (r: Task)
    ensures
        r == task_empty(),
{
    Task {
        rsp: 0,
        present: false,
        blocked: false,
        domain: 0,
        deadline: NO_DEADLINE,
        period: 0,
        budget: 0,
        result: IpcResult { status: 0, reply: 0, cptr: 0xffff },
    }
}

/// How many of the first `n` tasks are there.
pub open spec fn present_below(tasks: Seq<Task>, n: int) -> nat
    decreases n,
{
    if n <= 0 {
        0
    } else {
        present_below(tasks, n - 1) + if tasks[n - 1].present {
            1nat
        } else {
            0
        }
    }
}

/// The task is there and does not wait.
pub open spec fn runnable(t: Task) -> bool {
    t.present && !t.blocked
}

impl Scheduler {
    /// The tasks are counted.
    pub open spec fn counted(self) -> bool {
        &&& self.current < MAX_TASKS
        &&& self.num == present_below(self.tasks@, MAX_TASKS as int)
    }

    /// The tasks are counted, and the running task is there.
    pub open spec fn wf(self) -> bool {
        self.counted() && self.tasks@[self.current as int].present
    }

    /// A scheduler without tasks.
    pub fn new() -> (r: Scheduler)
        ensures
            forall|i: int| 0 <= i < MAX_TASKS ==> #[trigger] r.tasks@[i] == task_empty(),
            r.num == 0,
            r.current == 0,
    {
        Scheduler { tasks: [empty_task(); MAX_TASKS], num: 0, current: 0 }
    }
}

/// One more task changes the count by one.
proof fn lemma_present_update(tasks: Seq<Task>, i: int, t: Task, n: int)
    requires
        0 <= i < tasks.len(),
        0 <= n <= tasks.len(),
    ensures
        present_below(tasks.update(i, t), n) == present_below(tasks, n) + if i < n {
            (if t.present {
                1int
            } else {
                0
            }) - (if tasks[i].present {
                1int
            } else {
                0
            })
        } else {
            0
        },
    decreases n,
{
    if n > 0 {
        lemma_present_update(tasks, i, t, n - 1);
    }
}

/// The count is at most the number of tasks counted, and is at least one if one of
/// them is there.
proof fn lemma_present_bounds(tasks: Seq<Task>, n: int)
    requires
        0 <= n <= tasks.len(),
    ensures
        present_below(tasks, n) <= n,
        forall|i: int| 0 <= i < n && (#[trigger] tasks[i]).present ==> present_below(tasks, n) >= 1,
    decreases n,
{
    if n > 0 {
        lemma_present_bounds(tasks, n - 1);
    }
}

/// Registers the boot thread as task 0 and as the one that runs.
pub fn init(s: &mut Scheduler)
    ensures
        final(s).tasks@ == old(s).tasks@.update(0, Task { present: true, ..task_empty() }),
        final(s).num == 1,
        final(s).current == 0,
        (forall|i: int| 1 <= i < MAX_TASKS ==> !(#[trigger] old(s).tasks@[i]).present)
            ==> final(s).wf(),
{
    let mut t = empty_task();
    t.present = true;
    s.tasks[0] = t;
    s.num = 1;
    s.current = 0;
    proof {
        if forall|i: int| 1 <= i < MAX_TASKS ==> !(#[trigger] old(s).tasks@[i]).present {
            reveal_with_fuel(present_below, 6);
            assert(!old(s).tasks@[1].present);
            assert(!old(s).tasks@[2].present);
            assert(!old(s).tasks@[3].present);
            assert(!old(s).tasks@[4].present);
        }
    }
}

/// `i` is the lowest task number, other than 0, that is free.
pub open spec fn is_lowest_free_task(tasks: Seq<Task>, i: int) -> bool {
    &&& 1 <= i < MAX_TASKS
    &&& !tasks[i].present
    &&& forall|j: int| 1 <= j < i ==> (#[trigger] tasks[j]).present
}

/// All task numbers are taken.
pub open spec fn tasks_full(tasks: Seq<Task>) -> bool {
    forall|j: int| 1 <= j < MAX_TASKS ==> (#[trigger] tasks[j]).present
}

/// The lowest free task number.
fn free_task(s: &Scheduler) -> (r: Option<usize>)
    ensures
        match r {
            Some(i) => is_lowest_free_task(s.tasks@, i as int),
            None => tasks_full(s.tasks@),
        },
{
    let mut i: usize = 1;
    while i < MAX_TASKS
        invariant
            1 <= i <= MAX_TASKS,
            forall|j: int| 1 <= j < i ==> (#[trigger] s.tasks@[j]).present,
        decreases MAX_TASKS - i,
    {
        if !s.tasks[i].present {
            return Some(i);
        }
        i = i + 1;
    }
    None
}

/// How a new task is started: its number, where its saved context goes, and the
/// context itself.
#[derive(Clone, Copy, Debug)]
pub struct Spawned {
    pub task: usize,
    pub frame_ptr: u64,
    pub frame: [u64; FRAME_WORDS],
}

/// The top of the stack of task `i`, on a 16-byte boundary.
pub open spec fn task_stack_top(stacks_base: u64, i: int) -> int {
    let end = stacks_base + (i + 1) * TASK_STACK_SIZE;
    end - end % 16
}

/// A context that starts at `entry`: all registers are 0 but the first argument, and
/// `iretq` finds the instruction, code segment, flags, stack and stack segment.
pub open spec fn start_frame(entry: u64, cs: u16, stack: u64, ss: u16, arg: u64) -> Seq<u64> {
    Seq::new(
        FRAME_WORDS as nat,
        |k: int|
            if k == FRAME_RDI {
                arg
            } else if k < 15 {
                0u64
            } else if k == 15 {
                entry
            } else if k == 16 {
                cs as u64
            } else if k == 17 {
                START_FLAGS
            } else if k == 18 {
                stack
            } else {
                ss as u64
            },
    )
}

/// Builds a context that starts at `entry`.
fn build_frame(entry: u64, cs: u16, stack: u64, ss: u16, arg: u64) -> (r: [u64; FRAME_WORDS])
    ensures
        r@ == start_frame(entry, cs, stack, ss, arg),
{
    let mut f: [u64; FRAME_WORDS] = [0; FRAME_WORDS];
    f[FRAME_RDI] = arg;
    f[15] = entry;
    f[16] = cs as u64;
    f[17] = START_FLAGS;
    f[18] = stack;
    f[19] = ss as u64;
    assert(f@ =~= start_frame(entry, cs, stack, ss, arg));
    f
}

/// The stacks of all tasks have addresses that fit a machine word, and the first one
/// is large enough for a saved context.
pub open spec fn stacks_in_range(stacks_base: u64) -> bool {
    stacks_base + MAX_TASKS * TASK_STACK_SIZE <= u64::MAX
}

/// The top of the stack of task `i`, on which the kernel runs for it.
pub fn stack_top_of(stacks_base: u64, i: usize) -> (r: u64)
    requires
        i < MAX_TASKS,
        stacks_in_range(stacks_base),
    ensures
        r == task_stack_top(stacks_base, i as int),
        r >= 160,
{
    let end: u64 = stacks_base + (i as u64 + 1) * TASK_STACK_SIZE;
    assert(end & !0xfu64 == end - end % 16) by (bit_vector);
    end & !0xf
}

/// Starts a task of the kernel at `entry`. It gets the lowest free number, takes its
/// turn with the others, and its context goes to the top of its own stack, on which
/// it then runs. Answers `None` when all task numbers are taken.
pub fn spawn(s: &mut Scheduler, entry: u64, code_sel: u16, data_sel: u16, stacks_base: u64) -> (r:
    Option<Spawned>)
    requires
        old(s).wf(),
        stacks_in_range(stacks_base),
    ensures
        final(s).wf(),
        final(s).current == old(s).current,
        match r {
            Some(sp) => {
                let top = task_stack_top(stacks_base, sp.task as int);
                &&& is_lowest_free_task(old(s).tasks@, sp.task as int)
                &&& sp.frame_ptr == top - 160
                &&& sp.frame@ == start_frame(entry, code_sel, top as u64, data_sel, 0)
                &&& final(s).tasks@ == old(s).tasks@.update(
                    sp.task as int,
                    Task { rsp: sp.frame_ptr, present: true, ..task_empty() },
                )
                &&& final(s).num == old(s).num + 1
            },
            None => {
                &&& tasks_full(old(s).tasks@)
                &&& final(s).tasks@ == old(s).tasks@
                &&& final(s).num == old(s).num
            },
        },
{
    let i = match free_task(s) {
        Some(i) => i,
        None => {
            return None;
        },
    };
    let top: u64 = stack_top_of(stacks_base, i);
    let frame_ptr: u64 = top - 160;
    let frame = build_frame(entry, code_sel, top, data_sel, 0);
    let mut t = empty_task();
    t.rsp = frame_ptr;
    t.present = true;
    proof {
        lemma_present_update(s.tasks@, i as int, t, MAX_TASKS as int);
        lemma_present_bounds(s.tasks@, MAX_TASKS as int);
    }
    s.tasks[i] = t;
    s.num = s.num + 1;
    Some(Spawned { task: i, frame_ptr, frame })
}

/// What admitting a task of a domain comes to.
#[derive(Clone, Copy, Debug)]
pub enum Admitted {
    Task(Spawned),
    /// The capability does not admit.
    Denied(Status),
    /// All task numbers are taken.
    Full,
}

/// Admits a task of a domain to the run queue. It must present a root capability to a
/// time slice. The task starts at `entry` on its own stack with `arg_cptr` as its
/// argument; its first deadline is `relative_deadline` from `now`, and the next ones
/// follow at `period`.
pub fn admit_user(
    s: &mut Scheduler,
    cs: &CapSpace,
    entry: u64,
    stack_top: u64,
    arg_cptr: u16,
    timeslice_cptr: u16,
    domain: u16,
    relative_deadline: u64,
    period: u64,
    budget: u64,
    now: u64,
    user_cs: u16,
    user_ss: u16,
    stacks_base: u64,
) -> (r: Admitted)
    requires
        old(s).counted(),
        stacks_in_range(stacks_base),
    ensures
        final(s).counted(),
        old(s).wf() ==> final(s).wf(),
        final(s).current == old(s).current,
        match r {
            Admitted::Task(sp) => {
                &&& crate::capspace::admit_status(cs@, timeslice_cptr) == Status::Success
                &&& is_lowest_free_task(old(s).tasks@, sp.task as int)
                &&& sp.frame_ptr == task_stack_top(stacks_base, sp.task as int) - 160
                &&& sp.frame@ == start_frame(entry, user_cs, stack_top, user_ss, arg_cptr as u64)
                &&& final(s).tasks@ == old(s).tasks@.update(
                    sp.task as int,
                    Task {
                        rsp: sp.frame_ptr,
                        present: true,
                        domain,
                        deadline: plus(now, relative_deadline),
                        period,
                        budget,
                        ..task_empty()
                    },
                )
                &&& final(s).num == old(s).num + 1
            },
            Admitted::Denied(status) => {
                &&& status != Status::Success
                &&& status == crate::capspace::admit_status(cs@, timeslice_cptr)
                &&& final(s).tasks@ == old(s).tasks@
                &&& final(s).num == old(s).num
            },
            Admitted::Full => {
                &&& crate::capspace::admit_status(cs@, timeslice_cptr) == Status::Success
                &&& tasks_full(old(s).tasks@)
                &&& final(s).tasks@ == old(s).tasks@
                &&& final(s).num == old(s).num
            },
        },
{
    let status = admit_check(cs, timeslice_cptr);
    if status != Status::Success {
        return Admitted::Denied(status);
    }
    let i = match free_task(s) {
        Some(i) => i,
        None => {
            return Admitted::Full;
        },
    };
    let frame_ptr: u64 = stack_top_of(stacks_base, i) - 160;
    let frame = build_frame(entry, user_cs, stack_top, user_ss, arg_cptr as u64);
    let mut t = empty_task();
    t.rsp = frame_ptr;
    t.present = true;
    t.domain = domain;
    t.deadline = now.saturating_add(relative_deadline);
    t.period = period;
    t.budget = budget;
    proof {
        lemma_present_update(s.tasks@, i as int, t, MAX_TASKS as int);
        lemma_present_bounds(s.tasks@, MAX_TASKS as int);
    }
    s.tasks[i] = t;
    s.num = s.num + 1;
    Admitted::Task(Spawned { task: i, frame_ptr, frame })
}

/// The sum, or the largest machine word if it does not fit.
pub open spec fn plus(a: u64, b: u64) -> u64 {
    if a + b <= u64::MAX {
        (a + b) as u64
    } else {
        u64::MAX
    }
}

/// The deadline that is in force at `now`: the first one of the task's series that lies
/// ahead.
pub open spec fn deadline_at(t: Task, now: u64) -> u64 {
    if !runnable(t) || t.period == 0 || t.deadline > now {
        t.deadline
    } else {
        let missed = (now - t.deadline) / t.period as int;
        let next = t.deadline + (missed + 1) * t.period;
        if next <= u64::MAX {
            next as u64
        } else {
            u64::MAX
        }
    }
}

/// The task with its deadline as of `now`.
pub open spec fn rolled(t: Task, now: u64) -> Task {
    Task { deadline: deadline_at(t, now), ..t }
}

/// The next deadline of a task.
fn roll_deadline(t: &Task, now: u64) -> (r: u64)
    ensures
        r == deadline_at(*t, now),
{
    if !t.present || t.blocked || t.period == 0 || t.deadline > now {
        return t.deadline;
    }
    let behind: u64 = now - t.deadline;
    let late: u64 = behind % t.period;
    proof {
        vstd::arithmetic::div_mod::lemma_fundamental_div_mod(behind as int, t.period as int);
        let missed = behind as int / t.period as int;
        let p = t.period as int;
        assert((missed + 1) * p == p * missed + p) by (nonlinear_arith);
    }
    let left: u64 = t.period - late;
    now.saturating_add(left)
}

/// Brings the deadlines of all tasks that are there and do not wait up to date.
fn roll_deadlines(s: &mut Scheduler, now: u64)
    ensures
        final(s).tasks@ == Seq::new(MAX_TASKS as nat, |i: int| rolled(old(s).tasks@[i], now)),
        final(s).num == old(s).num,
        final(s).current == old(s).current,
{
    let mut i: usize = 0;
    while i < MAX_TASKS
        invariant
            i <= MAX_TASKS,
            s.num == old(s).num,
            s.current == old(s).current,
            forall|j: int|
                0 <= j < i ==> #[trigger] s.tasks@[j] == rolled(old(s).tasks@[j], now),
            forall|j: int| i <= j < MAX_TASKS ==> #[trigger] s.tasks@[j] == old(s).tasks@[j],
        decreases MAX_TASKS - i,
    {
        let mut t = s.tasks[i];
        t.deadline = roll_deadline(&t, now);
        s.tasks[i] = t;
        i = i + 1;
    }
    assert(s.tasks@ =~= Seq::new(MAX_TASKS as nat, |i: int| rolled(old(s).tasks@[i], now)));
}

/// How many turns after `current` it is the turn of task `i`, from 1 for the one that
/// follows to `MAX_TASKS` for the task itself.
pub open spec fn turns_until(current: int, i: int) -> int {
    if i > current {
        i - current
    } else {
        i - current + MAX_TASKS
    }
}

/// Task `a` goes before task `b`: it has the earlier deadline, or both have the same one
/// and `a` is the lower, or neither has one and it is the turn of `a` first.
pub open spec fn goes_before(tasks: Seq<Task>, current: int, a: int, b: int) -> bool {
    if tasks[a].deadline != tasks[b].deadline {
        tasks[a].deadline < tasks[b].deadline
    } else if tasks[a].deadline != NO_DEADLINE {
        a < b
    } else {
        turns_until(current, a) < turns_until(current, b)
    }
}

/// `n` is the task to run after `current`: it is runnable, and it goes before every other
/// runnable task.
pub open spec fn is_next(tasks: Seq<Task>, current: int, n: int) -> bool {
    &&& 0 <= n < MAX_TASKS
    &&& runnable(tasks[n])
    &&& forall|j: int|
        0 <= j < MAX_TASKS && j != n && runnable(#[trigger] tasks[j]) ==> goes_before(
            tasks,
            current,
            n,
            j,
        )
}

/// The task to run after the current one, or `None` if all wait.
pub fn pick_next(s: &Scheduler) -> (r: Option<usize>)
    requires
        s.current < MAX_TASKS,
    ensures
        match r {
            Some(n) => is_next(s.tasks@, s.current as int, n as int),
            None => forall|j: int| 0 <= j < MAX_TASKS ==> !runnable(#[trigger] s.tasks@[j]),
        },
{
    let mut best: Option<usize> = None;
    let mut n: usize = s.current;
    let mut k: usize = 0;
    while k < MAX_TASKS
        invariant
            k <= MAX_TASKS,
            s.current < MAX_TASKS,
            n == (s.current + k) % (MAX_TASKS as int),
            match best {
                Some(b) => {
                    &&& b < MAX_TASKS
                    &&& runnable(s.tasks@[b as int])
                    &&& turns_until(s.current as int, b as int) <= k
                    &&& forall|j: int|
                        0 <= j < MAX_TASKS && j != b && runnable(#[trigger] s.tasks@[j])
                            && turns_until(s.current as int, j) <= k ==> goes_before(
                            s.tasks@,
                            s.current as int,
                            b as int,
                            j,
                        )
                },
                None => forall|j: int|
                    0 <= j < MAX_TASKS && turns_until(s.current as int, j) <= k ==> !runnable(
                        #[trigger] s.tasks@[j],
                    ),
            },
        decreases MAX_TASKS - k,
    {
        n = (n + 1) % MAX_TASKS;
        k = k + 1;
        assert(turns_until(s.current as int, n as int) == k);
        assert forall|j: int| 0 <= j < MAX_TASKS && turns_until(s.current as int, j) <= k implies j
            == n || turns_until(s.current as int, j) <= k - 1 by {}
        let t = s.tasks[n];
        if t.present && !t.blocked {
            match best {
                Some(b) => {
                    let earliest: u64 = s.tasks[b].deadline;
                    if t.deadline < earliest || (t.deadline == earliest && t.deadline
                        != NO_DEADLINE && n < b) {
                        best = Some(n);
                    }
                },
                None => {
                    best = Some(n);
                },
            }
        }
    }
    best
}

/// The scheduler after a timer tick. With one task at most nothing happens. Otherwise
/// the interrupted task is saved, deadlines are brought up to date, and the next task
/// is the one to run.
pub open spec fn ticked(s: Scheduler, s2: Scheduler, rsp: u64, now: u64) -> bool {
    if s.num <= 1 {
        s2.tasks@ == s.tasks@ && s2.current == s.current
    } else {
        let saved = s.tasks@.update(
            s.current as int,
            Task { rsp, ..s.tasks@[s.current as int] },
        );
        &&& s2.tasks@ == Seq::new(MAX_TASKS as nat, |i: int| rolled(saved[i], now))
        &&& is_next(s2.tasks@, s.current as int, s2.current as int)
    }
}

/// The capability space with the domain of the scheduler's running task as the running
/// domain.
pub open spec fn in_domain_of(v: crate::capspace::SpaceView, s: Scheduler) ->
    crate::capspace::SpaceView {
    crate::capspace::SpaceView { current: s.tasks@[s.current as int].domain, ..v }
}

/// Takes a timer tick at `now`: `current_rsp` is where the interrupted task was saved,
/// and the answer is where the context of the task to run is. Its domain becomes the
/// running one.
pub fn schedule_tick(s: &mut Scheduler, cs: &mut CapSpace, current_rsp: u64, now: u64) -> (r: u64)
    requires
        old(s).wf(),
        runnable(old(s).tasks@[old(s).current as int]),
    ensures
        final(s).wf(),
        final(s).num == old(s).num,
        ticked(*old(s), *final(s), current_rsp, now),
        final(cs)@ == if old(s).num <= 1 {
            old(cs)@
        } else {
            in_domain_of(old(cs)@, *final(s))
        },
        r == if old(s).num <= 1 {
            current_rsp
        } else {
            final(s).tasks@[final(s).current as int].rsp
        },
{
    if s.num <= 1 {
        return current_rsp;
    }
    let cur: usize = s.current;
    let mut t = s.tasks[cur];
    t.rsp = current_rsp;
    s.tasks[cur] = t;
    let ghost saved = s.tasks@;
    roll_deadlines(s, now);
    proof {
        lemma_present_update(old(s).tasks@, cur as int, t, MAX_TASKS as int);
        lemma_rolled_count(saved, s.tasks@, now, MAX_TASKS as int);
    }
    assert(runnable(s.tasks@[cur as int]));
    match pick_next(s) {
        Some(n) => {
            s.current = n;
            set_current_domain(cs, s.tasks[n].domain);
            s.tasks[n].rsp
        },
        None => current_rsp,
    }
}

/// Bringing deadlines up to date adds and removes no task.
proof fn lemma_rolled_count(before: Seq<Task>, after: Seq<Task>, now: u64, n: int)
    requires
        before.len() == MAX_TASKS,
        after == Seq::new(MAX_TASKS as nat, |i: int| rolled(before[i], now)),
        0 <= n <= MAX_TASKS,
    ensures
        present_below(after, n) == present_below(before, n),
    decreases n,
{
    if n > 0 {
        lemma_rolled_count(before, after, now, n - 1);
    }
}

/// The task that runs.
pub fn current_task(s: &Scheduler) -> (r: usize)
    ensures
        r == s.current,
{
    s.current
}

/// Has the running task wait, and gives the task to switch to, whose domain becomes the
/// running one. `current_rsp` is where the running task was saved. Answers `None`, and
/// leaves the running task waiting, if no other task can run.
pub fn block_current(s: &mut Scheduler, cs: &mut CapSpace, current_rsp: u64, now: u64) -> (r:
    Option<usize>)
    requires
        old(s).wf(),
    ensures
        final(s).wf(),
        final(s).num == old(s).num,
        ({
            let saved = old(s).tasks@.update(
                old(s).current as int,
                Task { rsp: current_rsp, blocked: true, ..old(s).tasks@[old(s).current as int] },
            );
            final(s).tasks@ == Seq::new(MAX_TASKS as nat, |i: int| rolled(saved[i], now))
        }),
        match r {
            Some(n) => {
                &&& is_next(final(s).tasks@, old(s).current as int, n as int)
                &&& n != old(s).current
                &&& final(s).current == n
                &&& final(cs)@ == in_domain_of(old(cs)@, *final(s))
            },
            None => {
                &&& final(s).current == old(s).current
                &&& final(cs)@ == old(cs)@
                &&& forall|j: int|
                    0 <= j < MAX_TASKS ==> !runnable(#[trigger] final(s).tasks@[j])
            },
        },
{
    let cur: usize = s.current;
    let mut t = s.tasks[cur];
    t.rsp = current_rsp;
    t.blocked = true;
    s.tasks[cur] = t;
    let ghost saved = s.tasks@;
    roll_deadlines(s, now);
    proof {
        lemma_present_update(old(s).tasks@, cur as int, t, MAX_TASKS as int);
        lemma_rolled_count(saved, s.tasks@, now, MAX_TASKS as int);
    }
    match pick_next(s) {
        Some(n) => {
            assert(runnable(s.tasks@[n as int]));
            s.current = n;
            set_current_domain(cs, s.tasks[n].domain);
            Some(n)
        },
        None => None,
    }
}

/// Wakes a task: what it waited for is left for it first, then it may run again. A
/// number out of range changes nothing.
pub fn unblock(s: &mut Scheduler, task: usize, status: u64, reply: u64, cptr: u16)
    requires
        old(s).wf(),
    ensures
        final(s).wf(),
        final(s).num == old(s).num,
        final(s).current == old(s).current,
        final(s).tasks@ == if task < MAX_TASKS {
            old(s).tasks@.update(
                task as int,
                Task {
                    result: IpcResult { status, reply, cptr },
                    blocked: false,
                    ..old(s).tasks@[task as int]
                },
            )
        } else {
            old(s).tasks@
        },
{
    if task < MAX_TASKS {
        let mut t = s.tasks[task];
        t.result = IpcResult { status, reply, cptr };
        t.blocked = false;
        proof {
            lemma_present_update(s.tasks@, task as int, t, MAX_TASKS as int);
        }
        s.tasks[task] = t;
    }
}

/// What the task was woken with last.
pub fn take_ipc_result(s: &Scheduler, task: usize) -> (r: IpcResult)
    requires
        task < MAX_TASKS,
    ensures
        r == s.tasks@[task as int].result,
{
    s.tasks[task].result
}

/// Gives the running task's number up: the task is gone and is not saved. The caller
/// then picks the task to switch to. Gives the task and its domain.
pub fn terminate_current(s: &mut Scheduler) -> (r: (usize, u16))
    requires
        old(s).wf(),
    ensures
        r.0 == old(s).current,
        r.1 == old(s).tasks@[old(s).current as int].domain,
        final(s).tasks@ == old(s).tasks@.update(
            old(s).current as int,
            Task { present: false, blocked: false, ..old(s).tasks@[old(s).current as int] },
        ),
        final(s).num == old(s).num - 1,
        final(s).counted(),
        final(s).current == old(s).current,
{
    let cur: usize = s.current;
    let mut t = s.tasks[cur];
    let domain: u16 = t.domain;
    t.present = false;
    t.blocked = false;
    proof {
        lemma_present_update(s.tasks@, cur as int, t, MAX_TASKS as int);
        lemma_present_bounds(s.tasks@, MAX_TASKS as int);
    }
    s.tasks[cur] = t;
    s.num = s.num - 1;
    (cur, domain)
}

/// Picks the task to run after one was terminated, and makes it the running one, and its
/// domain the running domain. Answers `None` if no task can run.
pub fn resume_next(s: &mut Scheduler, cs: &mut CapSpace, now: u64) -> (r: Option<usize>)
    requires
        old(s).counted(),
    ensures
        final(s).counted(),
        final(s).num == old(s).num,
        final(s).tasks@ == Seq::new(MAX_TASKS as nat, |i: int| rolled(old(s).tasks@[i], now)),
        match r {
            Some(n) => {
                &&& final(s).wf()
                &&& is_next(final(s).tasks@, old(s).current as int, n as int)
                &&& final(s).current == n
                &&& final(cs)@ == in_domain_of(old(cs)@, *final(s))
            },
            None => {
                &&& final(s).current == old(s).current
                &&& final(cs)@ == old(cs)@
                &&& forall|j: int|
                    0 <= j < MAX_TASKS ==> !runnable(#[trigger] final(s).tasks@[j])
            },
        },
{
    let ghost before = s.tasks@;
    roll_deadlines(s, now);
    proof {
        lemma_rolled_count(before, s.tasks@, now, MAX_TASKS as int);
    }
    match pick_next(s) {
        Some(n) => {
            s.current = n;
            set_current_domain(cs, s.tasks[n].domain);
            Some(n)
        },
        None => None,
    }
}

/// There is at most one task to run next.
pub proof fn law_next_is_unique(tasks: Seq<Task>, current: int, a: int, b: int)
    requires
        0 <= current < MAX_TASKS,
        is_next(tasks, current, a),
        is_next(tasks, current, b),
    ensures
        a == b,
{
}

/// Without deadlines tasks take turns: the one to run next is the first runnable one
/// after the current one, going round.
pub proof fn law_without_deadlines_tasks_take_turns(tasks: Seq<Task>, current: int, n: int)
    requires
        0 <= current < MAX_TASKS,
        is_next(tasks, current, n),
        forall|j: int| 0 <= j < MAX_TASKS ==> (#[trigger] tasks[j]).deadline == NO_DEADLINE,
    ensures
        forall|j: int|
            0 <= j < MAX_TASKS && runnable(#[trigger] tasks[j]) ==> turns_until(current, n)
                <= turns_until(current, j),
{
}

/// Taking turns is fair: when another task runs next, the turn of a runnable task has
/// come nearer, so that it is reached in at most as many ticks as there are tasks.
pub proof fn law_turns_come_nearer(tasks: Seq<Task>, current: int, n: int, t: int)
    requires
        0 <= current < MAX_TASKS,
        0 <= t < MAX_TASKS,
        is_next(tasks, current, n),
        forall|j: int| 0 <= j < MAX_TASKS ==> (#[trigger] tasks[j]).deadline == NO_DEADLINE,
        runnable(tasks[t]),
    ensures
        n == t || turns_until(n, t) < turns_until(current, t),
        turns_until(current, t) <= MAX_TASKS,
{
}

/// The earliest deadline runs first, and a task that waits is never run.
pub proof fn law_earliest_deadline_first(tasks: Seq<Task>, current: int, n: int, j: int)
    requires
        is_next(tasks, current, n),
        0 <= j < MAX_TASKS,
    ensures
        !tasks[n].blocked,
        tasks[n].present,
        runnable(tasks[j]) ==> tasks[n].deadline <= tasks[j].deadline,
{
}

/// A deadline that has passed gives way to the next one of the same series, the first
/// that lies ahead. One that lies ahead stays.
pub proof fn law_next_deadline_is_the_first_ahead(t: Task, now: u64)
    requires
        runnable(t),
        t.period > 0,
        now + t.period <= u64::MAX,
    ensures
        deadline_at(t, now) > now,
        t.deadline > now ==> deadline_at(t, now) == t.deadline,
        t.deadline <= now ==> deadline_at(t, now) <= now + t.period,
        t.deadline <= now ==> (deadline_at(t, now) - t.deadline) % (t.period as int) == 0,
{
    if t.deadline <= now {
        let behind = now - t.deadline;
        let p = t.period as int;
        vstd::arithmetic::div_mod::lemma_fundamental_div_mod(behind, p);
        let missed = behind / p;
        assert((missed + 1) * p == p * missed + p) by (nonlinear_arith);
        vstd::arithmetic::div_mod::lemma_mod_multiples_basic(missed + 1, p);
        assert(0 <= behind % p < p) by {
            vstd::arithmetic::div_mod::lemma_mod_bound(behind, p);
        }
    }
}

/// A task acts with the authority of its own domain: after a switch, what it can invoke is
/// looked up in the table of the domain that it was admitted to.
pub proof fn law_running_task_acts_in_its_domain(
    v: crate::capspace::SpaceView,
    s: Scheduler,
    cptr: u16,
    mem: crate::memory::Memory,
    v2: crate::capspace::SpaceView,
    mem2: crate::memory::Memory,
    method: u16,
    arg0: u64,
    xfer: u16,
    r: crate::capspace::IpcOutcome,
)
    requires
        s.wf(),
        s.tasks@[s.current as int].domain < crate::capspace::MAX_DOMAINS,
        crate::capspace::invoked_ipc(
            in_domain_of(v, s),
            mem,
            v2,
            mem2,
            s.current as u16,
            cptr,
            method,
            arg0,
            xfer,
            r,
        ),
    ensures
        ({
            let d = s.tasks@[s.current as int].domain as int;
            let status = crate::capspace::resolve_status(v, d, cptr);
            status != Status::Success ==> r == crate::capspace::IpcOutcome::Done(
                status,
                0,
                crate::capspace::CPTR_NONE,
            ) && v2 == in_domain_of(v, s) && mem2 == mem
        }),
{
}

/// A task that is woken finds what it was woken with, and can run.
pub proof fn law_woken_task_finds_its_result(
    before: Seq<Task>,
    after: Seq<Task>,
    task: int,
    result: IpcResult,
)
    requires
        before.len() == MAX_TASKS,
        0 <= task < MAX_TASKS,
        before[task].present,
        after == before.update(task, Task { result, blocked: false, ..before[task] }),
    ensures
        after[task].result == result,
        runnable(after[task]),
        forall|j: int| 0 <= j < MAX_TASKS && j != task ==> #[trigger] after[j] == before[j],
{
}

/// Every task has a stack of its own: its top, on a 16-byte boundary, lies in the task's own
/// 64 KiB of the stacks, and the tops of two tasks are as far apart as the stacks are large,
/// but for the rounding. So no two stacks overlap.
pub proof fn law_stacks_are_apart(stacks_base: u64, i: int, j: int)
    requires
        0 <= i < j,
    ensures
        stacks_base + i * 0x1_0000 < task_stack_top(stacks_base, i) <= stacks_base + (i + 1)
            * 0x1_0000,
        stacks_base + (i + 1) * 0x1_0000 - task_stack_top(stacks_base, i) < 16,
        task_stack_top(stacks_base, i) % 16 == 0,
        task_stack_top(stacks_base, j) - task_stack_top(stacks_base, i) >= 0x1_0000 - 15,
        task_stack_top(stacks_base, j) - 0x1_0000 + 15 >= task_stack_top(stacks_base, i),
{
    assert((j + 1) * 0x1_0000 - (i + 1) * 0x1_0000 >= 0x1_0000) by (nonlinear_arith)
        requires
            i < j,
    ;
}

/// A context for a new task is one that `iretq` and the register pops before it turn into
/// the task's start: twenty words, of which the tenth is the first argument, the last five
/// are instruction, code segment, flags with interrupts on, stack and stack segment, and all
/// others are zero.
pub proof fn law_task_starts_as_told(
    entry: u64,
    cs: u16,
    stack: u64,
    ss: u16,
    arg: u64,
    k: int,
)
    requires
        0 <= k < 15,
        k != 9,
    ensures
        ({
            let f = start_frame(entry, cs, stack, ss, arg);
            &&& f.len() == 20
            &&& f[9] == arg
            &&& f[15] == entry
            &&& f[16] == cs
            &&& f[17] == 0x202
            &&& f[18] == stack
            &&& f[19] == ss
            &&& f[k] == 0
        }),
{
}

/// A sum of times is exact as long as it fits, and is otherwise later than any time, never
/// earlier than either of its parts.
pub proof fn law_times_do_not_wrap(a: u64, b: u64)
    ensures
        plus(a, b) >= a,
        plus(a, b) >= b,
        a + b <= 0xffff_ffff_ffff_ffff ==> plus(a, b) == a + b,
        a + b > 0xffff_ffff_ffff_ffff ==> plus(a, b) == 0xffff_ffff_ffff_ffff,
{
}

/// Deadlines move only for a task that can run, has a period and has missed its deadline;
/// nothing else of a task changes. A deadline that would lie beyond all times never comes.
pub proof fn law_only_missed_deadlines_move(t: Task, now: u64)
    ensures
        !t.present || t.blocked || t.period == 0 || t.deadline > now ==> rolled(t, now) == t,
        rolled(t, now) == (Task { deadline: rolled(t, now).deadline, ..t }),
        rolled(t, now).deadline >= t.deadline,
        t.present && !t.blocked && t.period > 0 && t.deadline <= now ==> rolled(t, now).deadline
            > now || rolled(t, now).deadline == u64::MAX,
{
    if t.present && !t.blocked && t.period > 0 && t.deadline <= now {
        let behind = now - t.deadline;
        let p = t.period as int;
        vstd::arithmetic::div_mod::lemma_fundamental_div_mod(behind, p);
        vstd::arithmetic::div_mod::lemma_mod_bound(behind, p);
        let missed = behind / p;
        assert((missed + 1) * p == p * missed + p) by (nonlinear_arith);
    }
}

/// Which task runs next. It is there and does not wait, and so is every task that it is
/// chosen over. Of tasks with the same deadline the lowest runs. Of tasks without a deadline
/// it is the first one above the current, going round: every other task that can run is
/// further on.
pub proof fn law_choice_of_the_next_task(tasks: Seq<Task>, current: int, n: int, j: int)
    requires
        0 <= current < 5,
        0 <= j < 5,
        is_next(tasks, current, n),
        tasks[j].present,
        !tasks[j].blocked,
    ensures
        0 <= n < 5,
        tasks[n].present && !tasks[n].blocked,
        tasks[n].deadline <= tasks[j].deadline,
        tasks[n].deadline == tasks[j].deadline && tasks[j].deadline != 0xffff_ffff_ffff_ffff ==> n
            <= j,
        tasks[n].deadline == 0xffff_ffff_ffff_ffff ==> (n - current + 4) % 5 <= (j - current + 4)
            % 5,
{
}

/// A tick loses no task: the interrupted one is resumed later from where it was saved, every
/// other one from where it was saved before, and of no task anything but its deadline
/// changes besides.
pub proof fn law_tick_saves_the_interrupted_task(
    s: Scheduler,
    s2: Scheduler,
    rsp: u64,
    now: u64,
    i: int,
)
    requires
        s.current < 5,
        ticked(s, s2, rsp, now),
        0 <= i < 5,
    ensures
        s.num <= 1 ==> s2.tasks@ == s.tasks@ && s2.current == s.current,
        s.num > 1 ==> {
            &&& s2.tasks@[i] == (Task {
                rsp: if i == s.current {
                    rsp
                } else {
                    s.tasks@[i].rsp
                },
                deadline: s2.tasks@[i].deadline,
                ..s.tasks@[i]
            })
            &&& 0 <= s2.current < 5
            &&& s2.tasks@[s2.current as int].present && !s2.tasks@[s2.current as int].blocked
        },
{
}

/// A task number that is not in use holds nothing of an earlier task: it is not there, does
/// not wait, belongs to the root, has no deadline and no result.
pub proof fn law_new_tasks_start_blank(tasks: Seq<Task>, i: int)
    requires
        is_lowest_free_task(tasks, i),
    ensures
        task_empty() == (Task {
            rsp: 0,
            present: false,
            blocked: false,
            domain: 0,
            deadline: 0xffff_ffff_ffff_ffff,
            period: 0,
            budget: 0,
            result: IpcResult { status: 0, reply: 0, cptr: 0xffff },
        }),
        1 <= i < 5,
        !tasks[i].present,
        !tasks_full(tasks),
        forall|j: int| 1 <= j < 5 && j < i ==> (#[trigger] tasks[j]).present,
{
    assert(!tasks[i].present);
}

/// All task numbers are taken only if each of the four besides the first is in use.
pub proof fn law_full_means_full(tasks: Seq<Task>)
    ensures
        tasks_full(tasks) <==> tasks[1].present && tasks[2].present && tasks[3].present
            && tasks[4].present,
{
    if tasks[1].present && tasks[2].present && tasks[3].present && tasks[4].present {
        assert forall|j: int| 1 <= j < 5 implies (#[trigger] tasks[j]).present by {
            assert(j == 1 || j == 2 || j == 3 || j == 4);
        }
    }
}

/// The count of tasks goes up by one for each that is there, and a task can run if it is there
/// and does not wait.
pub proof fn law_tasks_are_counted_one_by_one(tasks: Seq<Task>, n: int)
    requires
        0 <= n,
    ensures
        present_below(tasks, 0) == 0,
        tasks[n].present ==> present_below(tasks, n + 1) == present_below(tasks, n) + 1,
        !tasks[n].present ==> present_below(tasks, n + 1) == present_below(tasks, n),
        runnable(tasks[n]) <==> tasks[n].present && !tasks[n].blocked,
        MAX_TASKS == 5,
{
}

} // verus!
