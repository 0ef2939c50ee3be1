//! Boot sequence: machine-mode setup, then the supervisor-mode entry that
//! launches the first user task.
//!
//! The hardware layer copies the computed CSR values to the real registers,
//! performs the controller accesses, and executes the privilege-return
//! instructions; the decisions — which registers get which values, in which
//! order the subsystems come up, which task runs first — are here.

use crate::plic::plic_init;
use crate::plic::PlicOp;
use crate::riscv::PrivilegeMode;
use crate::riscv::SIE_SEIE;
use crate::riscv::SIE_SSIE;
use crate::riscv::SSTATUS_SPIE;
use crate::timer::INTERRUPT_INTERVAL;
use crate::trap::Kernel;
use crate::trap::ENABLE_ALL_EXCEPTIONS;
use crate::trap::ENABLE_ALL_INTERRUPTS;
use vstd::prelude::*;

verus! {

/// Value programmed into `pmpaddr0`: the whole address space.
pub const PMP_ADDR_ALL: u64 = 0x3F_FFFF_FFFF_FFFF;

/// Value programmed into `pmpcfg0`: read, write and execute allowed.
pub const PMP_CFG_RWX: u64 = 0xF;

/// Machine-mode boot: open the PMP wide, bring up the scheduler with its
/// idle task, delegate traps to supervisor mode, aim `mepc` at the
/// supervisor entry, and start the timer.  Returns the first `mtimecmp`
/// deadline; the hardware layer then executes `mret`.  Fails only when the
/// heap cannot supply the idle stack.
pub fn boot(
    k: &mut Kernel,
    mtime: u64,
    kernel_trap_pc: u64,
    kernel_entry_pc: u64,
    idle_pc: u64,
    task_start_pc: u64,
) -> (r: Option<u64>)
    requires
        old(k).wf(),
        old(k).sched.all_tasks().len() == 0,
        old(k).sched.current == crate::sched::Current::Idle,
        mtime + INTERRUPT_INTERVAL <= u64::MAX,
    ensures
        final(k).wf(),
        r is Some <==> old(k).alloc.can_alloc(crate::task::STACK_ALLOC_SIZE),
        r is Some ==> {
            &&& r->Some_0 == mtime + INTERRUPT_INTERVAL
            &&& final(k).csrs.pmpaddr0 == PMP_ADDR_ALL
            &&& final(k).csrs.pmpcfg0 == PMP_CFG_RWX
            &&& final(k).csrs.mtvec == kernel_trap_pc
            &&& final(k).csrs.mideleg == ENABLE_ALL_INTERRUPTS
            &&& final(k).csrs.medeleg == ENABLE_ALL_EXCEPTIONS
            &&& final(k).csrs.mepc == kernel_entry_pc
            &&& final(k).csrs.mstatus_pp() == PrivilegeMode::Supervisor.spec_code()
            &&& final(k).csrs.sepc == idle_pc
            &&& final(k).csrs.sscratch == 0
            &&& final(k).sched.idle_task.xepc == idle_pc
            &&& final(k).sched.task_start == task_start_pc
            &&& final(k).timer.spec_initial_mtime() == mtime
        },
{
    k.csrs.pmpaddr0 = PMP_ADDR_ALL;
    k.csrs.pmpcfg0 = PMP_CFG_RWX;
    let ok = k.sched.init(&mut k.alloc, &mut k.csrs, idle_pc, task_start_pc);
    if !ok {
        return None;
    }
    k.csrs.mtvec = kernel_trap_pc;
    k.csrs.mideleg = ENABLE_ALL_INTERRUPTS;
    k.csrs.medeleg = ENABLE_ALL_EXCEPTIONS;
    k.csrs.mstatus_set_pp(PrivilegeMode::Supervisor);
    k.csrs.mepc = kernel_entry_pc;
    let ghost m0 = k.csrs.mstatus;
    let deadline = k.timer.timer_init(&mut k.csrs, mtime);
    proof {
        // Enabling the interrupt bit leaves the previous-privilege field.
        assert(((m0 | (1u64 << 3)) >> 11) & 0b11 == (m0 >> 11) & 0b11) by (bit_vector);
    }
    Some(deadline)
}

/// Supervisor-mode entry, reached by the boot `mret`: launch the shell as
/// the first user task, point `stvec` at the user trap handler, enable the
/// supervisor software and external interrupts, and bring up the interrupt
/// controller and the UART.  Returns the controller accesses and the
/// interrupt-enable value to store; the hardware layer then executes
/// `sret`, which lands in the idle task until the first tick.
pub fn kernel(k: &mut Kernel, shell_entry: u64, user_trap_pc: u64) -> (r: (Vec<PlicOp>, u8))
    requires
        old(k).wf(),
        old(k).sched.new_task_id < u64::MAX,
    ensures
        final(k).wf(),
        final(k).csrs.stvec == user_trap_pc,
        final(k).csrs.sstatus_pp() == PrivilegeMode::Supervisor.spec_code(),
        final(k).csrs.sie == old(k).csrs.sie | (1u64 << SIE_SSIE) | (1u64 << SIE_SEIE),
        r.0@.len() == 3,
        r.0@[0] == PlicOp::Store(
            (crate::plic::PLIC_SOURCE_PRIORITY + crate::plic::UART0_IRQ * 4) as u64,
            1u32,
        ),
        r.0@[1] == PlicOp::SetBits(
            (crate::plic::PLIC_SOURCE_ENABLE + crate::plic::ENABLE_S_MODE_SHIFT) as u64,
            0x400u32,
        ),
        r.0@[2] == PlicOp::Store(
            (crate::plic::PLIC_PRIORITY_THRESHOLD + crate::plic::CONTEXT_S_MODE_SHIFT) as u64,
            0u32,
        ),
        r.1 == crate::uart::UART_RX_ENABLE,
        old(k).sched.pool.view().len() > 0 || old(k).alloc.can_alloc(
            crate::task::STACK_ALLOC_SIZE,
        )
            ==> final(k).sched.running_list.view() == old(k).sched.running_list.view().push(
            crate::sched::created_task(&old(k).sched, &old(k).alloc, shell_entry, 0, 0),
        ),
{
    k.sched.task_create(&mut k.alloc, shell_entry, 0, 0);
    k.csrs.stvec = user_trap_pc;
    k.csrs.sstatus_set_pp(PrivilegeMode::Supervisor);
    let ghost s0 = k.csrs.sstatus;
    k.csrs.sstatus = k.csrs.sstatus | (1u64 << SSTATUS_SPIE);
    proof {
        // Enabling the previous-interrupt bit leaves the previous-privilege
        // bit.
        assert(((s0 | (1u64 << 5)) >> 8) & 0b1 == (s0 >> 8) & 0b1) by (bit_vector);
    }
    k.csrs.sie = k.csrs.sie | (1u64 << SIE_SSIE);
    k.csrs.sie = k.csrs.sie | (1u64 << SIE_SEIE);
    let ops = plic_init();
    let ier = crate::uart::uart_init();
    (ops, ier)
}

} // verus!
