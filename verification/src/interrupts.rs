//! Faults: what is done about one.
use vstd::prelude::*;

verus! {

/// The range of the kernel image, in which a missing page may be mapped on demand.
pub const KERNEL_IMAGE_START: u64 = 0xffff_ffff_8000_0000;

pub const KERNEL_IMAGE_END: u64 = 0xffff_ffff_c000_0000;

/// Bytes in the guard page.
pub const GUARD_SIZE: u64 = 0x1000;

/// What is done about a page fault.
#[derive(Clone, Copy, Debug, PartialEq, Eq, Structural)]
pub enum FaultAction {
    /// The kernel ran out of stack: report it and halt.
    StackOverflow,
    /// A domain is to blame: terminate it.
    TerminateDomain,
    /// A page of the kernel is missing: map it and go on, or halt if that fails.
    MapOnDemand,
    /// Report it and halt.
    Fatal,
}

/// The fault was taken in user code, by the code selector.
pub open spec fn from_user(code_selector: u16) -> bool {
    code_selector % 4 == 3
}

/// The page was not there, by the error code. Otherwise it was protected.
pub open spec fn page_missing(error_code: u64) -> bool {
    error_code % 2 == 0
}

/// What is done about a page fault at `fault_addr`. A fault of user code is the domain's
/// own, whatever the address. A fault of the kernel in the page below its stack means
/// that the stack is used up, and is never mapped away; one for a missing page of the
/// kernel image may be; any other is fatal.
pub open spec fn fault_action(
    guard: u64,
    fault_addr: u64,
    error_code: u64,
    code_selector: u16,
) -> FaultAction {
    if from_user(code_selector) {
        FaultAction::TerminateDomain
    } else if guard <= fault_addr < guard + GUARD_SIZE {
        FaultAction::StackOverflow
    } else if page_missing(error_code) && KERNEL_IMAGE_START <= fault_addr < KERNEL_IMAGE_END {
        FaultAction::MapOnDemand
    } else {
        FaultAction::Fatal
    }
}

/// What is done about a page fault.
pub fn page_fault_action(guard: u64, fault_addr: u64, error_code: u64, code_selector: u16) -> (r:
    FaultAction)
    requires
        guard + GUARD_SIZE <= u64::MAX,
    ensures
        r == fault_action(guard, fault_addr, error_code, code_selector),
{
    if faulted_in_ring3(code_selector) {
        return FaultAction::TerminateDomain;
    }
    if guard <= fault_addr && fault_addr < guard + GUARD_SIZE {
        return FaultAction::StackOverflow;
    }
    if error_code % 2 == 0 && KERNEL_IMAGE_START <= fault_addr && fault_addr < KERNEL_IMAGE_END {
        return FaultAction::MapOnDemand;
    }
    FaultAction::Fatal
}

/// Whether a fault was taken in user code. Such a fault terminates the domain; one of the
/// kernel is fatal.
pub fn faulted_in_ring3(code_selector: u16) -> (r: bool)
    ensures
        r == from_user(code_selector),
{
    code_selector % 4 == 3
}

/// A domain cannot bring the kernel down by a fault: whatever it touches, only the domain
/// is terminated. And the guard page is never mapped.
pub proof fn law_user_faults_are_contained(
    guard: u64,
    fault_addr: u64,
    error_code: u64,
    code_selector: u16,
)
    ensures
        from_user(code_selector) == (fault_action(guard, fault_addr, error_code, code_selector)
            == FaultAction::TerminateDomain),
        guard <= fault_addr < guard + GUARD_SIZE ==> fault_action(
            guard,
            fault_addr,
            error_code,
            code_selector,
        ) != FaultAction::MapOnDemand,
{
}

/// What each fault leads to. A fault of user code, by the lowest two bits of the code selector,
/// ends the domain. In the kernel, a fault in the 4096 bytes of the guard page is an overflow
/// of the stack; a page of the kernel image that is missing is mapped; all else is fatal.
pub proof fn law_every_fault_has_its_action(
    guard: u64,
    fault_addr: u64,
    error_code: u64,
    code_selector: u16,
)
    ensures
        ({
            let action = fault_action(guard, fault_addr, error_code, code_selector);
            let user = code_selector % 4 == 3;
            let in_guard = guard <= fault_addr && fault_addr - guard < 4096;
            let in_image = 0xffff_ffff_8000_0000 <= fault_addr < 0xffff_ffff_c000_0000;
            &&& action == FaultAction::TerminateDomain <==> user
            &&& action == FaultAction::StackOverflow <==> !user && in_guard
            &&& action == FaultAction::MapOnDemand <==> !user && !in_guard && in_image && error_code
                % 2 == 0
            &&& action == FaultAction::Fatal <==> !user && !in_guard && !(in_image && error_code % 2
                == 0)
            &&& from_user(code_selector) == user
        }),
{
}

} // verus!
