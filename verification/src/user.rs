//! User tasks: the pages they start with and what a driver finds in its buffer.
use crate::capspace::DeviceQueueDesc;
use vstd::prelude::*;

verus! {

/// Bytes in a page.
pub const USER_PAGE: u64 = 0x1000;

/// A page for a user task, backed by a fresh frame.
#[derive(Clone, Copy, Debug, PartialEq, Eq, Structural)]
pub struct UserPage {
    pub va: u64,
    pub writable: bool,
    pub executable: bool,
}

/// What a user task starts with: a page for its code, one for its stack, the address where
/// it starts, and the top of its stack.
#[derive(Clone, Copy, Debug, PartialEq, Eq, Structural)]
pub struct UserSetup {
    pub code: UserPage,
    pub stack: UserPage,
    pub entry: u64,
    pub stack_top: u64,
}

/// Plans the pages of a user task. The code can be executed but not written, the stack can
/// be written but not executed.
pub fn setup_user_task(code_va: u64, stack_va: u64) -> (r: UserSetup)
    requires
        stack_va + USER_PAGE <= u64::MAX,
    ensures
        r == (UserSetup {
            code: UserPage { va: code_va, writable: false, executable: true },
            stack: UserPage { va: stack_va, writable: true, executable: false },
            entry: code_va,
            stack_top: (stack_va + USER_PAGE) as u64,
        }),
        !(r.code.writable && r.code.executable),
        !(r.stack.writable && r.stack.executable),
{
    UserSetup {
        code: UserPage { va: code_va, writable: false, executable: true },
        stack: UserPage { va: stack_va, writable: true, executable: false },
        entry: code_va,
        stack_top: stack_va + USER_PAGE,
    }
}

/// Where in the buffer page the parameters for a driver stand.
pub const DRIVER_PARAMS: u64 = 2048;

/// What a driver finds in its buffer: the physical address of the buffer, the sector to
/// read, the size of the queue, and where in its page the doorbell is.
pub fn driver_params(queue: &DeviceQueueDesc, lba: u64) -> (r: [u64; 4])
    ensures
        r@ == seq![
            queue.buf_phys,
            lba,
            queue.qsize as u64,
            (queue.doorbell_phys % USER_PAGE) as u64,
        ],
{
    let r = [queue.buf_phys, lba, queue.qsize as u64, queue.doorbell_phys % USER_PAGE];
    assert(r@ =~= seq![
        queue.buf_phys,
        lba,
        queue.qsize as u64,
        (queue.doorbell_phys % USER_PAGE) as u64,
    ]);
    r
}

/// The parameters of a driver stand in the upper half of its buffer page, behind header, data
/// and status of a request, and fit in it.
pub proof fn law_parameters_fit_the_page()
    ensures
        USER_PAGE == 4096,
        DRIVER_PARAMS == 2048,
        DRIVER_PARAMS > 512 + 512,
        DRIVER_PARAMS + 4 * 8 <= USER_PAGE,
{
}

} // verus!
