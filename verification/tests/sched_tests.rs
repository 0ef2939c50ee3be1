use rvkernel::malloc::BumpAllocator;
use rvkernel::malloc::HEAP_SIZE;
use rvkernel::riscv::Csrs;
use rvkernel::sched::Scheduler;
use rvkernel::task::TaskState;
use rvkernel::uart::ReadRing;
use rvkernel::uart::WriteRing;

const IDLE_PC: u64 = 0x9000;
const TASK_START_PC: u64 = 0x9100;

fn booted() -> (Scheduler, BumpAllocator, Csrs) {
    let mut sched = Scheduler::new();
    let mut alloc = BumpAllocator::new(0x8000_0000);
    let mut csrs = Csrs::new();
    assert!(sched.init(&mut alloc, &mut csrs, IDLE_PC, TASK_START_PC));
    (sched, alloc, csrs)
}

#[test]
fn task_ids_start_at_one_and_increase() {
    let (mut sched, mut alloc, _csrs) = booted();
    assert_eq!(sched.task_create(&mut alloc, 0x100, 0, 0), Some(1));
    assert_eq!(sched.task_create(&mut alloc, 0x200, 0, 0), Some(2));
    assert_eq!(sched.task_create(&mut alloc, 0x300, 0, 0), Some(3));
}

#[test]
fn fresh_tasks_start_at_the_trampoline_with_their_arguments() {
    let (mut sched, mut alloc, mut csrs) = booted();
    sched.task_create(&mut alloc, 0x100, 0x2000, 12).unwrap();
    sched.schedule(&mut csrs, 0);
    let t = sched.current_task();
    assert_eq!(t.xepc, TASK_START_PC);
    assert_eq!(t.a0, 0x100);
    assert_eq!(t.a1, 0x2000);
    assert_eq!(t.a2, 12);
    assert_eq!(t.sp % 16, 0);
    assert_eq!(csrs.sepc, TASK_START_PC);
    assert_eq!(csrs.sscratch, 1);
}

#[test]
fn scheduling_serves_tasks_in_creation_order_round_after_round() {
    let (mut sched, mut alloc, mut csrs) = booted();
    sched.task_create(&mut alloc, 0x100, 0, 0).unwrap();
    sched.task_create(&mut alloc, 0x200, 0, 0).unwrap();
    let mut served = Vec::new();
    for _ in 0..6 {
        sched.schedule(&mut csrs, 0);
        served.push(csrs.sscratch);
    }
    assert_eq!(served, vec![1, 2, 1, 2, 1, 2]);
}

#[test]
fn the_idle_task_is_installed_when_nothing_is_ready() {
    let (mut sched, _alloc, mut csrs) = booted();
    sched.schedule(&mut csrs, 0);
    assert_eq!(csrs.sscratch, 0);
    assert_eq!(csrs.sepc, IDLE_PC);
    // Supervisor previous-privilege for the idle task.
    assert_eq!((csrs.sstatus >> 8) & 1, 1);
}

#[test]
fn a_sleeping_task_is_not_run_before_its_wake_tick() {
    let (mut sched, mut alloc, mut csrs) = booted();
    sched.task_create(&mut alloc, 0x100, 0, 0).unwrap();
    sched.schedule(&mut csrs, 0);
    assert_eq!(csrs.sscratch, 1);
    // The task goes to sleep until tick 50.
    let mut t = *sched.current_task();
    t.state = TaskState::Sleeping;
    t.sleep_until = Some(50);
    sched.set_current_task(t);
    // While the tick is below 50 only the idle task is installed.
    sched.schedule(&mut csrs, 0);
    assert_eq!(csrs.sscratch, 0);
    assert_eq!(sched.get_task_state(1), TaskState::Sleeping);
    sched.schedule(&mut csrs, 49);
    assert_eq!(csrs.sscratch, 0);
    assert_eq!(sched.get_task_state(1), TaskState::Sleeping);
    // At tick 50 the task wakes and runs again.
    sched.schedule(&mut csrs, 50);
    assert_eq!(csrs.sscratch, 1);
}

#[test]
fn get_task_state_reports_each_queue() {
    let (mut sched, mut alloc, mut csrs) = booted();
    sched.task_create(&mut alloc, 0x100, 0, 0).unwrap();
    sched.task_create(&mut alloc, 0x200, 0, 0).unwrap();
    // Task 1 installed and parked in waiting; task 2 still running-queue.
    sched.schedule(&mut csrs, 0);
    assert_eq!(sched.get_task_state(1), TaskState::Ready);
    assert_eq!(sched.get_task_state(2), TaskState::Ready);
    assert_eq!(sched.get_task_state(3), TaskState::Free);
    assert_eq!(sched.get_task_state(0), TaskState::Free);
}

#[test]
fn a_retired_task_slot_is_recycled_with_a_fresh_id() {
    let (mut sched, mut alloc, mut csrs) = booted();
    sched.task_create(&mut alloc, 0x100, 0, 0).unwrap();
    sched.schedule(&mut csrs, 0);
    // The task exits.
    let mut t = *sched.current_task();
    t.state = TaskState::Free;
    sched.set_current_task(t);
    // Two rounds later the slot has moved to the pool.
    sched.schedule(&mut csrs, 0);
    assert_eq!(csrs.sscratch, 0);
    assert_eq!(sched.get_task_state(1), TaskState::Free);
    // The next creation recycles it under the next id.
    assert_eq!(sched.task_create(&mut alloc, 0x300, 0, 0), Some(2));
    sched.schedule(&mut csrs, 0);
    assert_eq!(csrs.sscratch, 2);
}

#[test]
fn wait_advances_only_after_the_target_retires() {
    let (mut sched, mut alloc, mut csrs) = booted();
    let mut tx = WriteRing::new();
    let mut rx = ReadRing::new();
    // The shell is task 1 and currently installed.
    sched.task_create(&mut alloc, 0x100, 0, 0).unwrap();
    sched.schedule(&mut csrs, 0);
    // It spawns an echo task.
    let mut shell = *sched.current_task();
    shell.a7 = 6;
    shell.a0 = 0x200;
    shell.a1 = 0;
    shell.a2 = 0;
    shell.xepc = 0x5000;
    let r = rvkernel::syscall::syscall_handler(
        &mut shell,
        &mut sched,
        &mut alloc,
        &mut tx,
        &mut rx,
        0,
        &[],
    );
    assert_eq!(r, None);
    let echo_id = shell.a0;
    assert_eq!(echo_id, 2);
    // It waits for the echo task: the call does not advance while the
    // target is alive.
    shell.a7 = 5;
    shell.a0 = echo_id;
    shell.xepc = 0x5004;
    rvkernel::syscall::syscall_handler(
        &mut shell,
        &mut sched,
        &mut alloc,
        &mut tx,
        &mut rx,
        0,
        &[],
    );
    assert_eq!(shell.xepc, 0x5004);
    sched.set_current_task(shell);
    // The echo task runs and exits.
    sched.schedule(&mut csrs, 0);
    assert_eq!(csrs.sscratch, echo_id);
    let mut echo = *sched.current_task();
    echo.a7 = 1;
    rvkernel::syscall::syscall_handler(
        &mut echo,
        &mut sched,
        &mut alloc,
        &mut tx,
        &mut rx,
        0,
        &[],
    );
    sched.set_current_task(echo);
    // Run the scheduler until the retired slot reaches the pool.
    sched.schedule(&mut csrs, 0);
    sched.schedule(&mut csrs, 0);
    assert_eq!(sched.get_task_state(echo_id), TaskState::Free);
    // Now the wait advances past its call.
    sched.schedule(&mut csrs, 0);
    assert_eq!(csrs.sscratch, 1);
    let mut shell = *sched.current_task();
    shell.a7 = 5;
    shell.a0 = echo_id;
    rvkernel::syscall::syscall_handler(
        &mut shell,
        &mut sched,
        &mut alloc,
        &mut tx,
        &mut rx,
        0,
        &[],
    );
    assert_eq!(shell.xepc, 0x5004 + 4);
}

#[test]
fn alloc_of_more_than_the_heap_returns_zero_then_recovers() {
    let (mut sched, mut alloc, mut csrs) = booted();
    let mut tx = WriteRing::new();
    let mut rx = ReadRing::new();
    sched.task_create(&mut alloc, 0x100, 0, 0).unwrap();
    sched.schedule(&mut csrs, 0);
    let mut t = *sched.current_task();
    t.a7 = 7;
    t.a0 = (HEAP_SIZE + 1) as u64;
    rvkernel::syscall::syscall_handler(&mut t, &mut sched, &mut alloc, &mut tx, &mut rx, 0, &[]);
    assert_eq!(t.a0, 0);
    t.a7 = 7;
    t.a0 = 8;
    rvkernel::syscall::syscall_handler(&mut t, &mut sched, &mut alloc, &mut tx, &mut rx, 0, &[]);
    assert_ne!(t.a0, 0);
    assert_eq!(t.a0 % 8, 0);
}
