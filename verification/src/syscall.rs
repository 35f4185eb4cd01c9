//! The system call: there is one, the invocation of a capability.
//!
//! All arguments are plain numbers. A capability pointer, a method or a transfer slot that
//! does not fit its width is refused before it is cut to it.
use crate::capspace::{cap_invoke_ipc, CapSpace, IpcOutcome, MapPlan, Wake};
use crate::memory::Memory;
use crate::table::Status;
use vstd::prelude::*;

verus! {

/// The number of the system call.
pub const SYS_CAP_INVOKE: u64 = 1;

/// Stands for "no capability" in a register.
pub const CPTR_NULL: u64 = 0xffff;

/// What the entry code keeps for the processor: the kernel stack of the running task, the
/// user's stack pointer while the kernel runs, and the capability that goes back with an
/// answer.
#[derive(Clone, Copy, Debug, PartialEq, Eq, Structural)]
pub struct PerCpu {
    pub kernel_rsp0: u64,
    pub user_rsp_scratch: u64,
    pub reply_cptr: u64,
}

/// What goes back to the caller in registers.
#[derive(Clone, Copy, Debug, PartialEq, Eq, Structural)]
pub struct SyscallRet {
    pub status: u64,
    pub reply: u64,
}

/// What a system call comes to.
#[derive(Clone, Copy, Debug, PartialEq, Eq, Structural)]
pub enum SyscallOutcome {
    /// The answer.
    Return(SyscallRet),
    /// The answer, after the partner was woken.
    WakeAndReturn(Wake, SyscallRet),
    /// The caller waits; `finish` has the answer when it is woken.
    ParkSend(u16),
    ParkRecv(u16),
    /// Pages are to be mapped; `finish` has the answer.
    MapPages(MapPlan),
    /// A sector is to be read; `finish` has the answer.
    ReadBlock(u64),
}

/// The call is one that is looked at: it has the right number, and the capability
/// pointer, the method and the transfer slot fit their width.
pub open spec fn admissible(nr: u64, cptr: u64, method: u64, xfer: u64) -> bool {
    nr == SYS_CAP_INVOKE && cptr <= u16::MAX && method <= u16::MAX && xfer <= u16::MAX
}

/// The capability that goes back with an outcome, as the entry code finds it.
pub open spec fn outcome_cptr(o: IpcOutcome) -> u64 {
    match o {
        IpcOutcome::Done(_, _, c) => c as u64,
        IpcOutcome::Handoff(_, _, c, _) => c as u64,
        _ => CPTR_NULL,
    }
}

/// The outcome of an invocation, as the outcome of a system call.
pub open spec fn as_syscall(o: IpcOutcome) -> SyscallOutcome {
    match o {
        IpcOutcome::Done(status, reply, _) => SyscallOutcome::Return(
            SyscallRet { status: status.number(), reply },
        ),
        IpcOutcome::Handoff(status, reply, _, wake) => SyscallOutcome::WakeAndReturn(
            wake,
            SyscallRet { status: status.number(), reply },
        ),
        IpcOutcome::ParkSend(oid) => SyscallOutcome::ParkSend(oid),
        IpcOutcome::ParkRecv(oid) => SyscallOutcome::ParkRecv(oid),
        IpcOutcome::MapPages(plan) => SyscallOutcome::MapPages(plan),
        IpcOutcome::ReadBlock(lba) => SyscallOutcome::ReadBlock(lba),
    }
}

/// Takes a system call of the running task. The capability that goes back is "none" unless
/// one was received, so that nothing is left over from an earlier call.
pub fn syscall_dispatch(
    cpu: &mut PerCpu,
    cs: &mut CapSpace,
    mem: &mut Memory,
    cur_task: u16,
    nr: u64,
    cptr: u64,
    method: u64,
    arg0: u64,
    _arg1: u64,
    _arg2: u64,
    xfer: u64,
) -> (r: SyscallOutcome)
    requires
        old(mem).wf(),
    ensures
        final(mem).wf(),
        final(cpu).kernel_rsp0 == old(cpu).kernel_rsp0,
        final(cpu).user_rsp_scratch == old(cpu).user_rsp_scratch,
        if !admissible(nr, cptr, method, xfer) {
            &&& r == SyscallOutcome::Return(
                SyscallRet {
                    status: if nr != SYS_CAP_INVOKE {
                        Status::ErrMethod.number()
                    } else {
                        Status::ErrBadCPtr.number()
                    },
                    reply: 0,
                },
            )
            &&& final(cpu).reply_cptr == CPTR_NULL
            &&& final(cs)@ == old(cs)@
            &&& *final(mem) == *old(mem)
        } else {
            exists|o: IpcOutcome|
                {
                    &&& #[trigger] crate::capspace::invoked_ipc(
                        old(cs)@,
                        *old(mem),
                        final(cs)@,
                        *final(mem),
                        cur_task,
                        cptr as u16,
                        method as u16,
                        arg0,
                        xfer as u16,
                        o,
                    )
                    &&& r == as_syscall(o)
                    &&& final(cpu).reply_cptr == outcome_cptr(o)
                }
        },
{
    cpu.reply_cptr = CPTR_NULL;
    if nr != SYS_CAP_INVOKE {
        return SyscallOutcome::Return(SyscallRet { status: Status::ErrMethod.code(), reply: 0 });
    }
    if cptr > u16::MAX as u64 || method > u16::MAX as u64 || xfer > u16::MAX as u64 {
        return SyscallOutcome::Return(SyscallRet { status: Status::ErrBadCPtr.code(), reply: 0 });
    }
    match cap_invoke_ipc(cs, mem, cur_task, cptr as u16, method as u16, arg0, xfer as u16) {
        IpcOutcome::Done(status, reply, c) => {
            cpu.reply_cptr = c as u64;
            SyscallOutcome::Return(SyscallRet { status: status.code(), reply })
        },
        IpcOutcome::Handoff(status, reply, c, wake) => {
            cpu.reply_cptr = c as u64;
            SyscallOutcome::WakeAndReturn(wake, SyscallRet { status: status.code(), reply })
        },
        IpcOutcome::ParkSend(oid) => SyscallOutcome::ParkSend(oid),
        IpcOutcome::ParkRecv(oid) => SyscallOutcome::ParkRecv(oid),
        IpcOutcome::MapPages(plan) => SyscallOutcome::MapPages(plan),
        IpcOutcome::ReadBlock(lba) => SyscallOutcome::ReadBlock(lba),
    }
}

/// The answer to a call that had to wait for something: for a partner, for pages or for a
/// sector. `cptr` is the capability that goes back.
pub fn finish(cpu: &mut PerCpu, status: u64, reply: u64, cptr: u16) -> (r: SyscallRet)
    ensures
        r == (SyscallRet { status, reply }),
        *final(cpu) == (PerCpu { reply_cptr: cptr as u64, ..*old(cpu) }),
{
    cpu.reply_cptr = cptr as u64;
    SyscallRet { status, reply }
}

/// Which calls are looked at: those with the one number there is, whose capability pointer,
/// method and transfer slot fit 16 bits.
pub proof fn law_which_calls_are_looked_at(nr: u64, cptr: u64, method: u64, xfer: u64)
    ensures
        admissible(nr, cptr, method, xfer) <==> nr == 1 && cptr < 65536 && method < 65536 && xfer
            < 65536,
{
}

/// Answers reach the caller whole: the status by its number, all 64 bits of the reply, and the
/// capability, or the mark for none; and the partner is woken with what is meant for it.
pub proof fn law_answers_reach_the_caller(
    status: Status,
    reply: u64,
    cptr: u16,
    wake: Wake,
    oid: u16,
    plan: MapPlan,
    lba: u64,
)
    ensures
        as_syscall(IpcOutcome::Done(status, reply, cptr)) matches SyscallOutcome::Return(r)
            && r.status == status.number() && r.reply == reply,
        as_syscall(IpcOutcome::Handoff(status, reply, cptr, wake)) matches SyscallOutcome::WakeAndReturn(
            w,
            r,
        ) && w == wake && r.status == status.number() && r.reply == reply,
        as_syscall(IpcOutcome::ParkSend(oid)) == SyscallOutcome::ParkSend(oid),
        as_syscall(IpcOutcome::ParkRecv(oid)) == SyscallOutcome::ParkRecv(oid),
        as_syscall(IpcOutcome::MapPages(plan)) == SyscallOutcome::MapPages(plan),
        as_syscall(IpcOutcome::ReadBlock(lba)) == SyscallOutcome::ReadBlock(lba),
        outcome_cptr(IpcOutcome::Done(status, reply, cptr)) == cptr,
        outcome_cptr(IpcOutcome::Handoff(status, reply, cptr, wake)) == cptr,
        outcome_cptr(IpcOutcome::ParkSend(oid)) == 0xffff,
        outcome_cptr(IpcOutcome::ParkRecv(oid)) == 0xffff,
        outcome_cptr(IpcOutcome::MapPages(plan)) == 0xffff,
        outcome_cptr(IpcOutcome::ReadBlock(lba)) == 0xffff,
{
}

} // verus!
