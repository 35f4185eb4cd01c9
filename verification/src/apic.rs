//! The local interrupt controller and its timer: which registers are set to what.
use vstd::prelude::*;

verus! {

/// The model-specific register that holds the controller's base address.
pub const IA32_APIC_BASE: u32 = 0x1B;

/// The bit of that register that enables the controller.
pub const APIC_BASE_GLOBAL_ENABLE: u64 = 0x800;

/// The bits of that register that hold the address.
pub const APIC_BASE_ADDR_MASK: u64 = 0x000f_ffff_ffff_f000;

/// Registers of the controller, by their offset.
pub const REG_ID: u64 = 0x020;

pub const REG_EOI: u64 = 0x0B0;

pub const REG_SVR: u64 = 0x0F0;

pub const REG_LVT_TIMER: u64 = 0x320;

pub const REG_TIMER_INIT: u64 = 0x380;

pub const REG_TIMER_DIV: u64 = 0x3E0;

/// Values for these registers: the controller is enabled with the spurious vector, and
/// the timer counts every sixteenth tick and fires its vector again and again.
pub const SVR_ENABLED: u32 = 0x1FF;

pub const LVT_TIMER_PERIODIC: u32 = 0x2_0020;

pub const TIMER_DIVIDE_BY_16: u32 = 3;

/// The vector of the timer, and that of spurious interrupts.
pub const TIMER_VECTOR: u8 = 0x20;

pub const SPURIOUS_VECTOR: u8 = 0xFF;

/// Ports of the old interrupt controllers, and the value that masks all of their lines.
pub const PIC1_DATA: u16 = 0x21;

pub const PIC2_DATA: u16 = 0xA1;

pub const PIC_MASK_ALL: u8 = 0xFF;

/// A value for a register.
#[derive(Clone, Copy, Debug, PartialEq, Eq, Structural)]
pub struct RegWrite {
    pub reg: u64,
    pub value: u32,
}

/// How the timer is started: the base register is set to `base_msr`, the page at
/// `phys_base` is mapped at `virt_base`, and the registers are written in order. The last
/// write starts the timer.
#[derive(Clone, Copy, Debug)]
pub struct TimerPlan {
    pub base_msr: u64,
    pub phys_base: u64,
    pub virt_base: u64,
    pub writes: [RegWrite; 4],
}

/// The address that the base register holds.
pub open spec fn apic_address(base_msr: u64) -> u64 {
    base_msr & APIC_BASE_ADDR_MASK
}

/// Plans how the timer is started, given the base register. `initial_count` is what the
/// timer counts down from.
pub fn init_timer(hhdm: u64, base_msr: u64, initial_count: u32) -> (r: TimerPlan)
    requires
        hhdm + apic_address(base_msr) <= u64::MAX,
    ensures
        r.base_msr == base_msr | APIC_BASE_GLOBAL_ENABLE,
        r.phys_base == apic_address(base_msr),
        r.virt_base == hhdm + apic_address(base_msr),
        r.writes@ == seq![
            RegWrite { reg: REG_SVR, value: SVR_ENABLED },
            RegWrite { reg: REG_TIMER_DIV, value: TIMER_DIVIDE_BY_16 },
            RegWrite { reg: REG_LVT_TIMER, value: LVT_TIMER_PERIODIC },
            RegWrite { reg: REG_TIMER_INIT, value: initial_count },
        ],
        apic_address(r.base_msr) == apic_address(base_msr),
{
    let phys_base: u64 = base_msr & APIC_BASE_ADDR_MASK;
    proof {
        lemma_enable_keeps_address(base_msr);
    }
    let r = TimerPlan {
        base_msr: base_msr | APIC_BASE_GLOBAL_ENABLE,
        phys_base,
        virt_base: hhdm + phys_base,
        writes: [
            RegWrite { reg: REG_SVR, value: SVR_ENABLED },
            RegWrite { reg: REG_TIMER_DIV, value: TIMER_DIVIDE_BY_16 },
            RegWrite { reg: REG_LVT_TIMER, value: LVT_TIMER_PERIODIC },
            RegWrite { reg: REG_TIMER_INIT, value: initial_count },
        ],
    };
    assert(r.writes@ =~= seq![
        RegWrite { reg: REG_SVR, value: SVR_ENABLED },
        RegWrite { reg: REG_TIMER_DIV, value: TIMER_DIVIDE_BY_16 },
        RegWrite { reg: REG_LVT_TIMER, value: LVT_TIMER_PERIODIC },
        RegWrite { reg: REG_TIMER_INIT, value: initial_count },
    ]);
    r
}

/// Enabling the controller does not move it.
proof fn lemma_enable_keeps_address(msr: u64)
    by (bit_vector)
    ensures
        (msr | 0x800) & 0x000f_ffff_ffff_f000 == msr & 0x000f_ffff_ffff_f000,
        msr & 0x000f_ffff_ffff_f000 == msr % 0x10_0000_0000_0000 - msr % 0x1000,
        (msr | 0x800) / 0x800 % 2 == 1,
        (msr | 0x800) == if msr / 0x800 % 2 == 1 {
            msr as int
        } else {
            msr + 0x800
        },
{
}

/// The write that ends an interrupt.
pub fn eoi() -> (r: RegWrite)
    ensures
        r == (RegWrite { reg: REG_EOI, value: 0 }),
{
    RegWrite { reg: REG_EOI, value: 0 }
}

/// The controller's number, from its id register.
pub fn apic_id(id_register: u32) -> (r: u32)
    ensures
        r == id_register / 0x100_0000,
{
    id_register / 0x100_0000
}

/// The base register holds the address of a page: its bits from the twelfth to the
/// fifty-first, and no others. Enabling the controller sets one bit below them.
pub proof fn law_base_register_holds_a_page(msr: u64)
    ensures
        apic_address(msr) % 4096 == 0,
        apic_address(msr) == msr % 0x10_0000_0000_0000 - msr % 4096,
        msr | APIC_BASE_GLOBAL_ENABLE == if msr / 0x800 % 2 == 1 {
            msr as int
        } else {
            msr + 0x800
        },
{
    lemma_enable_keeps_address(msr);
}

/// The registers stand where the controller has them. The controller is enabled, with the
/// highest vector for spurious interrupts; the timer fires its vector periodically.
pub proof fn law_registers_of_the_controller()
    ensures
        REG_ID == 0x20,
        REG_EOI == 0xB0,
        REG_SVR == 0xF0,
        REG_LVT_TIMER == 0x320,
        REG_TIMER_INIT == 0x380,
        REG_TIMER_DIV == 0x3E0,
        SVR_ENABLED == 0x100 + SPURIOUS_VECTOR,
        SPURIOUS_VECTOR == 0xFF,
        LVT_TIMER_PERIODIC == 0x2_0000 + TIMER_VECTOR,
        TIMER_VECTOR == 0x20,
        TIMER_DIVIDE_BY_16 == 3,
        IA32_APIC_BASE == 0x1B,
        PIC1_DATA == 0x21,
        PIC2_DATA == 0xA1,
        PIC_MASK_ALL == 0xFF,
{
}

} // verus!
