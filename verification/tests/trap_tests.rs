use rvkernel::boot::boot;
use rvkernel::boot::kernel;
use rvkernel::malloc::BumpAllocator;
use rvkernel::riscv::Csrs;
use rvkernel::sched::Scheduler;
use rvkernel::task::TaskState;
use rvkernel::timer::Timer;
use rvkernel::timer::INTERRUPT_INTERVAL;
use rvkernel::trap::trap_dispatch;
use rvkernel::trap::trap_handler;
use rvkernel::trap::trap_return;
use rvkernel::trap::Kernel;
use rvkernel::trap::RegFile;
use rvkernel::trap::ENVIRONMENT_CALL_FROM_U_MODE;
use rvkernel::trap::MACHINE_TIMER_INTERRUPT;
use rvkernel::trap::SUPERVISOR_EXTERNAL_INTERRUPT;
use rvkernel::trap::SUPERVISOR_SOFTWARE_INTERRUPT;
use rvkernel::uart::ReadRing;
use rvkernel::uart::WriteRing;

const KERNEL_TRAP_PC: u64 = 0x8000;
const KERNEL_ENTRY_PC: u64 = 0x8100;
const IDLE_PC: u64 = 0x8200;
const TASK_START_PC: u64 = 0x8300;
const USER_TRAP_PC: u64 = 0x8400;
const SHELL_PC: u64 = 0x8500;

fn zero_regs() -> RegFile {
    RegFile {
        ra: 0,
        sp: 0,
        gp: 0,
        tp: 0,
        t0: 0,
        t1: 0,
        t2: 0,
        t3: 0,
        t4: 0,
        t5: 0,
        t6: 0,
        s0: 0,
        s1: 0,
        s2: 0,
        s3: 0,
        s4: 0,
        s5: 0,
        s6: 0,
        s7: 0,
        s8: 0,
        s9: 0,
        s10: 0,
        s11: 0,
        a0: 0,
        a1: 0,
        a2: 0,
        a3: 0,
        a4: 0,
        a5: 0,
        a6: 0,
        a7: 0,
    }
}

fn booted_kernel() -> (Kernel, u64) {
    let mut k = Kernel {
        sched: Scheduler::new(),
        timer: Timer::new(),
        alloc: BumpAllocator::new(0x8000_0000),
        tx: WriteRing::new(),
        rx: ReadRing::new(),
        csrs: Csrs::new(),
    };
    let deadline =
        boot(&mut k, 1000, KERNEL_TRAP_PC, KERNEL_ENTRY_PC, IDLE_PC, TASK_START_PC).unwrap();
    kernel(&mut k, SHELL_PC, USER_TRAP_PC);
    (k, deadline)
}

#[test]
fn every_register_survives_a_trap_round_trip() {
    let (mut k, _) = booted_kernel();
    let mut regs = zero_regs();
    regs.ra = 11;
    regs.sp = 22;
    regs.gp = 33;
    regs.tp = 44;
    regs.t0 = 50;
    regs.t6 = 56;
    regs.s0 = 60;
    regs.s11 = 71;
    regs.a0 = 80;
    regs.a7 = 87;
    trap_handler(&mut k, &regs, 0x4242, SUPERVISOR_SOFTWARE_INTERRUPT);
    let restored = trap_return(&k);
    assert_eq!(restored, regs);
    assert_eq!(k.sched.current_task().xepc, 0x4242);
    assert_eq!(k.sched.current_task().xcause, SUPERVISOR_SOFTWARE_INTERRUPT);
}

#[test]
fn the_machine_timer_rearms_and_does_not_flush() {
    let (mut k, deadline) = booted_kernel();
    assert_eq!(deadline, 1000 + INTERRUPT_INTERVAL);
    k.tx.uart_write(b"pending");
    trap_handler(&mut k, &zero_regs(), IDLE_PC, MACHINE_TIMER_INTERRUPT);
    let mtime = 1000 + INTERRUPT_INTERVAL;
    let out = trap_dispatch(&mut k, mtime, 0, &[], &[]);
    assert_eq!(out.mtimecmp, Some(mtime + INTERRUPT_INTERVAL));
    // The machine timer path must not take the transmit lock.
    assert_eq!(out.flush, None);
    assert_eq!(k.timer.get_current_tick(), 1);
    // The supervisor software interrupt is now pending.
    assert_eq!((k.csrs.sip >> 1) & 1, 1);
}

#[test]
fn the_software_interrupt_runs_the_scheduler_and_flushes() {
    let (mut k, _) = booted_kernel();
    k.tx.uart_write(b"boot message");
    trap_handler(&mut k, &zero_regs(), IDLE_PC, SUPERVISOR_SOFTWARE_INTERRUPT);
    let out = trap_dispatch(&mut k, 0, 0, &[], &[]);
    // The shell task created at boot is installed.
    assert_eq!(k.csrs.sscratch, 1);
    assert_eq!(k.csrs.sepc, TASK_START_PC);
    assert_eq!(out.flush, Some(b"boot message".to_vec()));
    // The pending bit was cleared.
    assert_eq!((k.csrs.sip >> 1) & 1, 0);
}

#[test]
fn the_uart_interrupt_stores_echoes_and_completes() {
    let (mut k, _) = booted_kernel();
    trap_handler(&mut k, &zero_regs(), IDLE_PC, SUPERVISOR_EXTERNAL_INTERRUPT);
    let out = trap_dispatch(&mut k, 0, 10, b"hi\r", &[]);
    assert_eq!(out.direct, b"hi\n".to_vec());
    assert_eq!(out.complete, Some(10));
}

#[test]
fn an_unclaimed_interrupt_id_prints_a_diagnostic() {
    let (mut k, _) = booted_kernel();
    trap_handler(&mut k, &zero_regs(), IDLE_PC, SUPERVISOR_EXTERNAL_INTERRUPT);
    let out = trap_dispatch(&mut k, 0, 5, &[], &[]);
    assert_eq!(out.direct, b"not implement irq\n".to_vec());
    assert_eq!(out.complete, Some(5));
    let out0 = {
        trap_handler(&mut k, &zero_regs(), IDLE_PC, SUPERVISOR_EXTERNAL_INTERRUPT);
        trap_dispatch(&mut k, 0, 0, &[], &[])
    };
    assert_eq!(out0.complete, None);
}

#[test]
fn a_write_call_lands_in_the_transmit_ring_and_flushes() {
    let (mut k, _) = booted_kernel();
    // Install the shell first.
    trap_handler(&mut k, &zero_regs(), IDLE_PC, SUPERVISOR_SOFTWARE_INTERRUPT);
    trap_dispatch(&mut k, 0, 0, &[], &[]);
    // The shell writes six bytes.
    let mut regs = zero_regs();
    regs.a7 = 3;
    regs.a0 = 0x2000;
    regs.a1 = 6;
    trap_handler(&mut k, &regs, TASK_START_PC, ENVIRONMENT_CALL_FROM_U_MODE);
    let out = trap_dispatch(&mut k, 0, 0, &[], b"hello\n");
    assert_eq!(out.flush, Some(b"hello\n".to_vec()));
    assert_eq!(out.read_back, None);
}

#[test]
fn a_read_call_returns_a_line_injected_on_the_receiver() {
    let (mut k, _) = booted_kernel();
    // The receiver takes `hello` and a newline.
    trap_handler(&mut k, &zero_regs(), IDLE_PC, SUPERVISOR_EXTERNAL_INTERRUPT);
    trap_dispatch(&mut k, 0, 10, b"hello\n", &[]);
    // Install the shell.
    trap_handler(&mut k, &zero_regs(), IDLE_PC, SUPERVISOR_SOFTWARE_INTERRUPT);
    trap_dispatch(&mut k, 0, 0, &[], &[]);
    // The shell reads into a buffer of 128 bytes.
    let mut regs = zero_regs();
    regs.a7 = 4;
    regs.a0 = 0x2000;
    regs.a1 = 128;
    trap_handler(&mut k, &regs, TASK_START_PC, ENVIRONMENT_CALL_FROM_U_MODE);
    let out = trap_dispatch(&mut k, 0, 0, &[], &[]);
    let line = out.read_back.unwrap();
    assert_eq!(line.len(), 6);
    assert_eq!(&line[0..5], b"hello");
    assert_eq!(line[5], 0);
    assert_eq!(k.sched.current_task().a0, 6);
    // A second read finds no complete line and returns a zero count.
    let mut regs = zero_regs();
    regs.a7 = 4;
    regs.a0 = 0x2000;
    regs.a1 = 128;
    trap_handler(&mut k, &regs, TASK_START_PC, ENVIRONMENT_CALL_FROM_U_MODE);
    let out = trap_dispatch(&mut k, 0, 0, &[], &[]);
    assert_eq!(out.read_back, None);
    assert_eq!(k.sched.current_task().a0, 0);
}

// Run the machine timer and the software interrupt for one tick.
fn run_tick(k: &mut Kernel, mtime: &mut u64) {
    *mtime += INTERRUPT_INTERVAL;
    trap_handler(k, &zero_regs(), IDLE_PC, MACHINE_TIMER_INTERRUPT);
    trap_dispatch(k, *mtime, 0, &[], &[]);
    trap_handler(k, &zero_regs(), IDLE_PC, SUPERVISOR_SOFTWARE_INTERRUPT);
    trap_dispatch(k, 0, 0, &[], &[]);
}

#[test]
fn sleeping_tasks_are_served_no_earlier_than_their_wake_tick() {
    // Task A sleeps 100 ticks between six services; task B sleeps 300
    // ticks between eleven.  Between any two services of one task, at
    // least its sleep span elapses on the tick counter, and both tasks
    // eventually retire.
    let mut k = Kernel {
        sched: Scheduler::new(),
        timer: Timer::new(),
        alloc: BumpAllocator::new(0x8000_0000),
        tx: WriteRing::new(),
        rx: ReadRing::new(),
        csrs: Csrs::new(),
    };
    boot(&mut k, 1000, KERNEL_TRAP_PC, KERNEL_ENTRY_PC, IDLE_PC, TASK_START_PC).unwrap();
    let a_id = k.sched.task_create(&mut k.alloc, 0xA000, 0, 0).unwrap();
    let b_id = k.sched.task_create(&mut k.alloc, 0xB000, 0, 0).unwrap();
    let mut a_left = 6u32;
    let mut b_left = 11u32;
    let mut a_services: Vec<u64> = Vec::new();
    let mut b_services: Vec<u64> = Vec::new();
    let mut mtime = 1000u64;
    for _ in 0..8000 {
        let installed = k.csrs.sscratch;
        if installed == a_id && a_left > 0 {
            a_services.push(k.timer.get_current_tick());
            a_left -= 1;
            let mut regs = zero_regs();
            if a_left == 0 {
                regs.a7 = 1;
            } else {
                regs.a7 = 2;
                regs.a0 = 100;
            }
            let pc = k.csrs.sepc;
            trap_handler(&mut k, &regs, pc, ENVIRONMENT_CALL_FROM_U_MODE);
            trap_dispatch(&mut k, 0, 0, &[], &[]);
        } else if installed == b_id && b_left > 0 {
            b_services.push(k.timer.get_current_tick());
            b_left -= 1;
            let mut regs = zero_regs();
            if b_left == 0 {
                regs.a7 = 1;
            } else {
                regs.a7 = 2;
                regs.a0 = 300;
            }
            let pc = k.csrs.sepc;
            trap_handler(&mut k, &regs, pc, ENVIRONMENT_CALL_FROM_U_MODE);
            trap_dispatch(&mut k, 0, 0, &[], &[]);
        } else {
            run_tick(&mut k, &mut mtime);
        }
        if a_left == 0 && b_left == 0 {
            break;
        }
    }
    assert_eq!(a_services.len(), 6);
    assert_eq!(b_services.len(), 11);
    for w in a_services.windows(2) {
        assert!(w[1] - w[0] >= 100);
    }
    for w in b_services.windows(2) {
        assert!(w[1] - w[0] >= 300);
    }
    // Both tasks eventually exited and their slots were retired.
    run_tick(&mut k, &mut mtime);
    run_tick(&mut k, &mut mtime);
    assert_eq!(k.sched.get_task_state(a_id), TaskState::Free);
    assert_eq!(k.sched.get_task_state(b_id), TaskState::Free);
}
