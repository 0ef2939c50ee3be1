//! Trap entry, cause demux, and trap exit.
//!
//! On entry the CPU's registers are spilled into the executing task's
//! descriptor, along with the interrupted program counter and the cause.
//! The dispatcher then demuxes the cause: the machine timer rearms itself
//! and cross-posts a supervisor software interrupt; the software interrupt
//! runs the scheduler; an external interrupt is claimed and, for the UART,
//! drains the receiver; an environment call runs the system-call handler
//! and then the scheduler.  On exit the (possibly different) installed
//! task's registers are read back out.
//!
//! What only the hardware knows comes in as arguments: the cycle counter,
//! the claimed interrupt id, the bytes drained from the receiver, the user
//! bytes behind a write call.  What must reach the hardware goes back out:
//! the next timer deadline, the bytes to transmit, the id to complete.

use crate::malloc::BumpAllocator;
use crate::riscv::Csrs;
use crate::riscv::SIP_SSIP;
use crate::sched::schedule_rel;
use crate::sched::Current;
use crate::sched::Scheduler;
use crate::syscall::syscall_handler;
use crate::syscall::task_after_syscall;
use crate::task::TaskState;
use crate::task::TaskStruct;
use crate::timer::Timer;
use crate::timer::INTERRUPT_INTERVAL;
use crate::uart::norm_prefix;
use crate::uart::spec_room;
use crate::uart::ReadRing;
use crate::uart::WriteRing;
use vstd::prelude::*;

verus! {

/// High bit of the cause register: set for interrupts, clear for
/// exceptions.  The interrupt causes below add their code to it; written
/// with addition so that the distinct values are plain arithmetic.
pub const INTERRUPT_BIT: u64 = 0x8000_0000_0000_0000;

pub const SUPERVISOR_SOFTWARE_INTERRUPT: u64 = INTERRUPT_BIT + 1;

pub const MACHINE_SOFTWARE_INTERRUPT: u64 = INTERRUPT_BIT + 3;

pub const SUPERVISOR_TIMER_INTERRUPT: u64 = INTERRUPT_BIT + 5;

pub const MACHINE_TIMER_INTERRUPT: u64 = INTERRUPT_BIT + 7;

pub const SUPERVISOR_EXTERNAL_INTERRUPT: u64 = INTERRUPT_BIT + 9;

pub const MACHINE_EXTERNAL_INTERRUPT: u64 = INTERRUPT_BIT + 11;

pub const ENVIRONMENT_CALL_FROM_U_MODE: u64 = 8;

pub const ENVIRONMENT_CALL_FROM_S_MODE: u64 = 9;

/// Delegation mask handing every interrupt to supervisor mode.
pub const ENABLE_ALL_INTERRUPTS: u64 = 0x2AAA;

/// Delegation mask handing the standard exceptions to supervisor mode.
pub const ENABLE_ALL_EXCEPTIONS: u64 = 0xBBFF;

/// The integer registers the trap entry must preserve for the interrupted
/// context.
#[derive(Clone, Copy, PartialEq, Eq, Structural, Debug)]
pub struct RegFile {
    pub ra: u64,
    pub sp: u64,
    pub gp: u64,
    pub tp: u64,
    pub t0: u64,
    pub t1: u64,
    pub t2: u64,
    pub t3: u64,
    pub t4: u64,
    pub t5: u64,
    pub t6: u64,
    pub s0: u64,
    pub s1: u64,
    pub s2: u64,
    pub s3: u64,
    pub s4: u64,
    pub s5: u64,
    pub s6: u64,
    pub s7: u64,
    pub s8: u64,
    pub s9: u64,
    pub s10: u64,
    pub s11: u64,
    pub a0: u64,
    pub a1: u64,
    pub a2: u64,
    pub a3: u64,
    pub a4: u64,
    pub a5: u64,
    pub a6: u64,
    pub a7: u64,
}

/// The descriptor after trap entry: the register file, the interrupted
/// program counter and the cause spilled in, everything else untouched.
pub open spec fn saved_task(t: TaskStruct, regs: RegFile, sepc: u64, scause: u64) -> TaskStruct {
    TaskStruct {
        id: t.id,
        state: t.state,
        stack: t.stack,
        sleep_until: t.sleep_until,
        xepc: sepc,
        xcause: scause,
        ra: regs.ra,
        sp: regs.sp,
        gp: regs.gp,
        tp: regs.tp,
        t0: regs.t0,
        t1: regs.t1,
        t2: regs.t2,
        t3: regs.t3,
        t4: regs.t4,
        t5: regs.t5,
        t6: regs.t6,
        s0: regs.s0,
        s1: regs.s1,
        s2: regs.s2,
        s3: regs.s3,
        s4: regs.s4,
        s5: regs.s5,
        s6: regs.s6,
        s7: regs.s7,
        s8: regs.s8,
        s9: regs.s9,
        s10: regs.s10,
        s11: regs.s11,
        a0: regs.a0,
        a1: regs.a1,
        a2: regs.a2,
        a3: regs.a3,
        a4: regs.a4,
        a5: regs.a5,
        a6: regs.a6,
        a7: regs.a7,
    }
}

/// The register file trap exit hands back to the CPU: every register as
/// the descriptor holds it.
pub open spec fn restored_regs(t: TaskStruct) -> RegFile {
    RegFile {
        ra: t.ra,
        sp: t.sp,
        gp: t.gp,
        tp: t.tp,
        t0: t.t0,
        t1: t.t1,
        t2: t.t2,
        t3: t.t3,
        t4: t.t4,
        t5: t.t5,
        t6: t.t6,
        s0: t.s0,
        s1: t.s1,
        s2: t.s2,
        s3: t.s3,
        s4: t.s4,
        s5: t.s5,
        s6: t.s6,
        s7: t.s7,
        s8: t.s8,
        s9: t.s9,
        s10: t.s10,
        s11: t.s11,
        a0: t.a0,
        a1: t.a1,
        a2: t.a2,
        a3: t.a3,
        a4: t.a4,
        a5: t.a5,
        a6: t.a6,
        a7: t.a7,
    }
}

/// Spilling a register file into a descriptor and reading it back returns
/// every register unchanged: a trap whose dispatcher touches nothing
/// resumes the interrupted context exactly.
pub proof fn lemma_register_round_trip(t: TaskStruct, regs: RegFile, sepc: u64, scause: u64)
    ensures
        restored_regs(saved_task(t, regs, sepc, scause)) == regs,
{
}

/// The whole kernel state the trap path works over.
pub struct Kernel {
    pub sched: Scheduler,
    pub timer: Timer,
    pub alloc: BumpAllocator,
    pub tx: WriteRing,
    pub rx: ReadRing,
    pub csrs: Csrs,
}

impl Kernel {
    pub open spec fn wf(&self) -> bool {
        &&& self.sched.wf()
        &&& self.alloc.wf()
        &&& self.tx.wf()
        &&& self.rx.wf()
    }
}

/// The executing descriptor, when it sits in the waiting queue, is one of
/// the queue's well-formed tasks.
proof fn lemma_current_ok(s: &Scheduler)
    requires
        s.wf(),
    ensures
        s.current is Node ==> crate::sched::task_ok(s.spec_current_task()),
{
    match s.current {
        Current::Node(n) => {
            s.waiting_list.lemma_linked_pos(n as int);
            let p = s.waiting_list.pos_of(n as int);
            assert(s.waiting_list.view()[p - 1] == s.spec_current_task());
        },
        Current::Idle => {},
    }
}

/// Trap entry: spill the CPU's registers, the interrupted program counter
/// and the cause into the executing task's descriptor.
pub fn trap_handler(k: &mut Kernel, regs: &RegFile, sepc: u64, scause: u64)
    requires
        old(k).wf(),
    ensures
        final(k).wf(),
        final(k).sched.spec_current_task() == saved_task(
            old(k).sched.spec_current_task(),
            *regs,
            sepc,
            scause,
        ),
        final(k).sched.current == old(k).sched.current,
        final(k).sched.running_list == old(k).sched.running_list,
        final(k).sched.blocked_list == old(k).sched.blocked_list,
        final(k).sched.pool == old(k).sched.pool,
        final(k).sched.new_task_id == old(k).sched.new_task_id,
        final(k).sched.task_start == old(k).sched.task_start,
        old(k).sched.current is Idle ==> final(k).sched.waiting_list == old(
            k,
        ).sched.waiting_list,
        old(k).sched.current matches Current::Node(n) ==> final(k).sched.waiting_list.view()
            == old(k).sched.waiting_list.view().update(
            old(k).sched.waiting_list.pos_of(n as int) - 1,
            saved_task(old(k).sched.spec_current_task(), *regs, sepc, scause),
        ) && final(k).sched.idle_task == old(k).sched.idle_task,
        final(k).timer == old(k).timer,
        final(k).alloc == old(k).alloc,
        final(k).tx == old(k).tx,
        final(k).rx == old(k).rx,
        final(k).csrs == old(k).csrs,
{
    let mut t = *k.sched.current_task();
    t.xepc = sepc;
    t.xcause = scause;
    t.ra = regs.ra;
    t.sp = regs.sp;
    t.gp = regs.gp;
    t.tp = regs.tp;
    t.t0 = regs.t0;
    t.t1 = regs.t1;
    t.t2 = regs.t2;
    t.t3 = regs.t3;
    t.t4 = regs.t4;
    t.t5 = regs.t5;
    t.t6 = regs.t6;
    t.s0 = regs.s0;
    t.s1 = regs.s1;
    t.s2 = regs.s2;
    t.s3 = regs.s3;
    t.s4 = regs.s4;
    t.s5 = regs.s5;
    t.s6 = regs.s6;
    t.s7 = regs.s7;
    t.s8 = regs.s8;
    t.s9 = regs.s9;
    t.s10 = regs.s10;
    t.s11 = regs.s11;
    t.a0 = regs.a0;
    t.a1 = regs.a1;
    t.a2 = regs.a2;
    t.a3 = regs.a3;
    t.a4 = regs.a4;
    t.a5 = regs.a5;
    t.a6 = regs.a6;
    t.a7 = regs.a7;
    proof {
        lemma_current_ok(&k.sched);
    }
    k.sched.set_current_task(t);
}

/// Trap exit: read the installed task's registers back out for the CPU.
pub fn trap_return(k: &Kernel) -> (regs: RegFile)
    requires
        k.wf(),
    ensures
        regs == restored_regs(k.sched.spec_current_task()),
{
    let t = k.sched.current_task();
    RegFile {
        ra: t.ra,
        sp: t.sp,
        gp: t.gp,
        tp: t.tp,
        t0: t.t0,
        t1: t.t1,
        t2: t.t2,
        t3: t.t3,
        t4: t.t4,
        t5: t.t5,
        t6: t.t6,
        s0: t.s0,
        s1: t.s1,
        s2: t.s2,
        s3: t.s3,
        s4: t.s4,
        s5: t.s5,
        s6: t.s6,
        s7: t.s7,
        s8: t.s8,
        s9: t.s9,
        s10: t.s10,
        s11: t.s11,
        a0: t.a0,
        a1: t.a1,
        a2: t.a2,
        a3: t.a3,
        a4: t.a4,
        a5: t.a5,
        a6: t.a6,
        a7: t.a7,
    }
}

/// What the dispatcher hands back for the unverifiable edges: the next
/// timer deadline to store, the bytes to transmit (`direct` right now,
/// `flush` after the handler), the interrupt id to complete, and the bytes
/// a read call delivers.
pub struct TrapOutput {
    pub mtimecmp: Option<u64>,
    pub flush: Option<Vec<u8>>,
    pub direct: Vec<u8>,
    pub complete: Option<u32>,
    pub read_back: Option<Vec<u8>>,
}

/// The UART0 interrupt id at the platform interrupt controller.
pub const UART0_IRQ: u32 = 10;

/// The diagnostic line printed for an interrupt id no handler claims.
pub open spec fn unknown_irq_message() -> Seq<u8> {
    seq![110u8, 111u8, 116u8, 32u8, 105u8, 109u8, 112u8, 108u8, 101u8, 109u8, 101u8, 110u8, 116u8, 32u8, 105u8, 114u8, 113u8, 10u8]
}

/// Build the diagnostic line for an unclaimed interrupt id.
fn unknown_irq_line() -> (r: Vec<u8>)
    ensures
        r@ == unknown_irq_message(),
{
    let mut msg: Vec<u8> = Vec::new();
    msg.push(110);
    msg.push(111);
    msg.push(116);
    msg.push(32);
    msg.push(105);
    msg.push(109);
    msg.push(112);
    msg.push(108);
    msg.push(101);
    msg.push(109);
    msg.push(101);
    msg.push(110);
    msg.push(116);
    msg.push(32);
    msg.push(105);
    msg.push(114);
    msg.push(113);
    msg.push(10);
    proof {
        assert(msg@ =~= unknown_irq_message());
    }
    msg
}

/// Demux one trap by the cause captured at entry, running the matching
/// handler; every path except the machine timer then drains the transmit
/// ring (the machine timer handler must not touch a lock a task-context
/// writer may hold).  An unlisted cause is a terminal fault and is
/// excluded here; the caller halts on it instead.
pub fn trap_dispatch(
    k: &mut Kernel,
    mtime: u64,
    irq: u32,
    rx_bytes: &[u8],
    write_data: &[u8],
) -> (out: TrapOutput)
    requires
        old(k).wf(),
        ({
            let cause = old(k).sched.spec_current_task().xcause;
            ||| cause == MACHINE_TIMER_INTERRUPT
            ||| cause == SUPERVISOR_SOFTWARE_INTERRUPT
            ||| cause == SUPERVISOR_EXTERNAL_INTERRUPT
            ||| cause == ENVIRONMENT_CALL_FROM_U_MODE
        }),
        old(k).sched.spec_current_task().xcause == MACHINE_TIMER_INTERRUPT ==> mtime >= old(
            k,
        ).timer.spec_initial_mtime() && mtime + INTERRUPT_INTERVAL <= u64::MAX,
        old(k).sched.spec_current_task().xcause == ENVIRONMENT_CALL_FROM_U_MODE ==> {
            let t = old(k).sched.spec_current_task();
            &&& old(k).sched.current is Node
            &&& t.a7 <= 7
            &&& t.xepc + 4 <= u64::MAX
            &&& old(k).sched.new_task_id < u64::MAX
            &&& (t.a7 == 2 ==> old(k).timer.spec_tick() + t.a0 <= u64::MAX)
            &&& (t.a7 == 3 ==> write_data@.len() == t.a1)
            &&& (t.a7 == 4 ==> t.a1 <= usize::MAX)
            &&& (t.a7 == 7 ==> t.a0 <= usize::MAX)
        },
    ensures
        final(k).wf(),
        ({
            let cause = old(k).sched.spec_current_task().xcause;
            &&& (cause == MACHINE_TIMER_INTERRUPT ==> {
                &&& final(k).sched == old(k).sched
                &&& final(k).alloc == old(k).alloc
                &&& final(k).tx == old(k).tx
                &&& final(k).rx == old(k).rx
                &&& final(k).timer.spec_initial_mtime() == old(k).timer.spec_initial_mtime()
                &&& final(k).timer.spec_tick() == (mtime - old(
                    k,
                ).timer.spec_initial_mtime()) as u64 / crate::timer::TICK_INTERVAL
                &&& final(k).csrs == (Csrs {
                    mip: old(k).csrs.mip | (1u64 << crate::riscv::MIP_MSIP),
                    sip: old(k).csrs.sip | (1u64 << crate::riscv::SIP_SSIP),
                    ..old(k).csrs
                })
                &&& out.mtimecmp == Some((mtime + INTERRUPT_INTERVAL) as u64)
                &&& out.flush is None
                &&& out.direct@.len() == 0
                &&& out.complete is None
                &&& out.read_back is None
            })
            &&& (cause == SUPERVISOR_SOFTWARE_INTERRUPT ==> {
                &&& final(k).timer.spec_tick() == old(k).timer.spec_tick()
                &&& final(k).timer.spec_initial_mtime() == old(k).timer.spec_initial_mtime()
                &&& final(k).alloc == old(k).alloc
                &&& final(k).rx == old(k).rx
                &&& schedule_rel(
                    old(k).sched.running_list.view(),
                    Scheduler::marked_waiting(&old(k).sched),
                    old(k).sched.blocked_list.view(),
                    old(k).sched.pool.view(),
                    Scheduler::marked_idle(&old(k).sched),
                    old(k).timer.spec_tick(),
                    &final(k).sched,
                    &final(k).csrs,
                )
                &&& final(k).csrs.sip == old(k).csrs.sip & !(1u64 << SIP_SSIP)
                &&& out.mtimecmp is None
                &&& out.flush is Some
                &&& out.flush->Some_0@ == old(k).tx.view()
                &&& final(k).tx.view().len() == 0
                &&& out.direct@.len() == 0
                &&& out.complete is None
                &&& out.read_back is None
            })
            &&& (cause == SUPERVISOR_EXTERNAL_INTERRUPT ==> {
                &&& final(k).sched == old(k).sched
                &&& final(k).timer.spec_tick() == old(k).timer.spec_tick()
                &&& final(k).timer.spec_initial_mtime() == old(k).timer.spec_initial_mtime()
                &&& final(k).alloc == old(k).alloc
                &&& final(k).csrs == old(k).csrs
                &&& (irq == UART0_IRQ ==> final(k).rx.view() == old(k).rx.view() + norm_prefix(
                    old(k).rx.view(),
                    rx_bytes@,
                ) && out.direct@ == norm_prefix(old(k).rx.view(), rx_bytes@))
                &&& (irq != UART0_IRQ ==> final(k).rx == old(k).rx && out.direct@
                    == unknown_irq_message())
                &&& out.complete == (if irq > 0 {
                    Some(irq)
                } else {
                    Option::<u32>::None
                })
                &&& out.mtimecmp is None
                &&& out.flush is Some
                &&& out.flush->Some_0@ == old(k).tx.view()
                &&& final(k).tx.view().len() == 0
                &&& out.read_back is None
            })
            &&& (cause == ENVIRONMENT_CALL_FROM_U_MODE ==> {
                let t0 = TaskStruct {
                    state: TaskState::Ready,
                    ..old(k).sched.spec_current_task()
                };
                let now = old(k).timer.spec_tick();
                let t1 = task_after_syscall(t0, now, &old(k).sched, &old(k).alloc, &old(k).rx);
                let created = old(k).sched.pool.view().len() > 0 || old(k).alloc.can_alloc(
                    crate::task::STACK_ALLOC_SIZE,
                );
                let n = old(k).sched.current->Node_0;
                let s1_running = if t0.a7 == 6 && created {
                    old(k).sched.running_list.view().push(
                        crate::sched::created_task(
                            &old(k).sched,
                            &old(k).alloc,
                            t0.a0,
                            t0.a1,
                            t0.a2,
                        ),
                    )
                } else {
                    old(k).sched.running_list.view()
                };
                let s1_pool = if t0.a7 == 6 && created && old(k).sched.pool.view().len() > 0 {
                    old(k).sched.pool.view().skip(1)
                } else {
                    old(k).sched.pool.view()
                };
                let s1_waiting = old(k).sched.waiting_list.view().update(
                    old(k).sched.waiting_list.pos_of(n as int) - 1,
                    t1,
                );
                &&& final(k).timer.spec_tick() == old(k).timer.spec_tick()
                &&& final(k).timer.spec_initial_mtime() == old(k).timer.spec_initial_mtime()
                &&& schedule_rel(
                    s1_running,
                    s1_waiting,
                    old(k).sched.blocked_list.view(),
                    s1_pool,
                    old(k).sched.idle_task,
                    now,
                    &final(k).sched,
                    &final(k).csrs,
                )
                &&& (t0.a7 == 3 ==> out.flush->Some_0@ == old(k).tx.view() + write_data@.take(
                    spec_room(old(k).tx.view(), write_data@),
                ))
                &&& (t0.a7 != 3 ==> out.flush->Some_0@ == old(k).tx.view())
                &&& (t0.a7 != 6 && t0.a7 != 7 ==> final(k).alloc == old(k).alloc)
                &&& (t0.a7 == 7 ==> final(k).alloc == (if old(k).alloc.can_alloc(t0.a0 as usize) {
                    old(k).alloc.alloc_next(t0.a0 as usize)
                } else {
                    old(k).alloc
                }))
                &&& (t0.a7 == 6 ==> final(k).alloc == (if created && old(
                    k,
                ).sched.pool.view().len() == 0 {
                    old(k).alloc.alloc_next(crate::task::STACK_ALLOC_SIZE)
                } else {
                    old(k).alloc
                }))
                &&& (t0.a7 == 4 && crate::syscall::read_count(&old(k).rx, t0.a1) > 0 ==> {
                    let p = crate::uart::first_nl(old(k).rx.view());
                    &&& final(k).rx.view() == old(k).rx.view().skip(p + 1)
                    &&& out.read_back is Some
                    &&& out.read_back->Some_0@.len() == crate::syscall::read_count(
                        &old(k).rx,
                        t0.a1,
                    )
                    &&& out.read_back->Some_0@ == (if p + 2 <= t0.a1 {
                        old(k).rx.view().take(p).push(0)
                    } else {
                        old(k).rx.view().take(t0.a1 - 1).push(0)
                    })
                })
                &&& (!(t0.a7 == 4 && crate::syscall::read_count(&old(k).rx, t0.a1) > 0)
                    ==> final(k).rx == old(k).rx && out.read_back is None)
                &&& out.mtimecmp is None
                &&& out.flush is Some
                &&& final(k).tx.view().len() == 0
                &&& out.direct@.len() == 0
                &&& out.complete is None
            })
        }),
{
    let cause = k.sched.current_task().xcause;
    if cause == MACHINE_TIMER_INTERRUPT {
        let deadline = k.timer.timer_handler(&mut k.csrs, mtime);
        TrapOutput {
            mtimecmp: Some(deadline),
            flush: None,
            direct: Vec::new(),
            complete: None,
            read_back: None,
        }
    } else if cause == SUPERVISOR_SOFTWARE_INTERRUPT {
        let mut t = *k.sched.current_task();
        t.state = TaskState::Ready;
        proof {
            lemma_current_ok(&k.sched);
        }
        k.sched.set_current_task(t);
        let now = k.timer.get_current_tick();
        k.sched.schedule(&mut k.csrs, now);
        k.csrs.sip = k.csrs.sip & !(1u64 << SIP_SSIP);
        let flushed = k.tx.uart_write_buffer_flush();
        TrapOutput {
            mtimecmp: None,
            flush: Some(flushed),
            direct: Vec::new(),
            complete: None,
            read_back: None,
        }
    } else if cause == SUPERVISOR_EXTERNAL_INTERRUPT {
        let direct: Vec<u8>;
        if irq == UART0_IRQ {
            direct = k.rx.uart_irq_handler(rx_bytes);
        } else {
            direct = unknown_irq_line();
        }
        let complete: Option<u32> = if irq > 0 {
            Some(irq)
        } else {
            None
        };
        let flushed = k.tx.uart_write_buffer_flush();
        TrapOutput { mtimecmp: None, flush: Some(flushed), direct, complete, read_back: None }
    } else {
        let mut t = *k.sched.current_task();
        t.state = TaskState::Ready;
        let now = k.timer.get_current_tick();
        let read_back = syscall_handler(
            &mut t,
            &mut k.sched,
            &mut k.alloc,
            &mut k.tx,
            &mut k.rx,
            now,
            write_data,
        );
        proof {
            lemma_current_ok(&k.sched);
            crate::uart::lemma_first_nl_nonneg(old(k).rx.view());
        }
        k.sched.set_current_task(t);
        k.sched.schedule(&mut k.csrs, now);
        let flushed = k.tx.uart_write_buffer_flush();
        TrapOutput {
            mtimecmp: None,
            flush: Some(flushed),
            direct: Vec::new(),
            complete: None,
            read_back,
        }
    }
}

} // verus!
