use rvkernel::malloc::BumpAllocator;
use rvkernel::riscv::Csrs;
use rvkernel::sched::Scheduler;
use rvkernel::syscall::syscall_handler;
use rvkernel::syscall::Syscall;
use rvkernel::task::TaskState;
use rvkernel::task::TaskStruct;
use rvkernel::uart::ReadRing;
use rvkernel::uart::WriteRing;

#[test]
fn call_numbers_and_names_match_both_ways() {
    let table = [
        (Syscall::Yield, 0u64),
        (Syscall::Exit, 1),
        (Syscall::Sleep, 2),
        (Syscall::Write, 3),
        (Syscall::Read, 4),
        (Syscall::Wait, 5),
        (Syscall::Spawn, 6),
        (Syscall::Alloc, 7),
    ];
    for (call, code) in table {
        assert_eq!(call.code(), code);
        assert_eq!(Syscall::from(code), call);
    }
    assert_eq!(Syscall::from(8), Syscall::Unknown);
    assert_eq!(Syscall::from(u64::MAX), Syscall::Unknown);
}

fn environment() -> (Scheduler, BumpAllocator, WriteRing, ReadRing, TaskStruct) {
    let mut sched = Scheduler::new();
    let mut alloc = BumpAllocator::new(0x8000_0000);
    let mut csrs = Csrs::new();
    assert!(sched.init(&mut alloc, &mut csrs, 0x9000, 0x9100));
    sched.task_create(&mut alloc, 0x100, 0, 0).unwrap();
    sched.schedule(&mut csrs, 0);
    let task = *sched.current_task();
    (sched, alloc, WriteRing::new(), ReadRing::new(), task)
}

#[test]
fn a_yield_advances_and_stays_ready() {
    let (mut sched, mut alloc, mut tx, mut rx, mut t) = environment();
    t.a7 = 0;
    t.xepc = 0x5000;
    syscall_handler(&mut t, &mut sched, &mut alloc, &mut tx, &mut rx, 0, &[]);
    assert_eq!(t.state, TaskState::Ready);
    assert_eq!(t.xepc, 0x5004);
}

#[test]
fn an_exit_retires_without_advancing() {
    let (mut sched, mut alloc, mut tx, mut rx, mut t) = environment();
    t.a7 = 1;
    t.xepc = 0x5000;
    syscall_handler(&mut t, &mut sched, &mut alloc, &mut tx, &mut rx, 0, &[]);
    assert_eq!(t.state, TaskState::Free);
    assert_eq!(t.xepc, 0x5000);
}

#[test]
fn a_sleep_records_its_wake_tick() {
    let (mut sched, mut alloc, mut tx, mut rx, mut t) = environment();
    t.a7 = 2;
    t.a0 = 100;
    t.xepc = 0x5000;
    syscall_handler(&mut t, &mut sched, &mut alloc, &mut tx, &mut rx, 7, &[]);
    assert_eq!(t.state, TaskState::Sleeping);
    assert_eq!(t.sleep_until, Some(107));
    assert_eq!(t.xepc, 0x5004);
}

#[test]
fn a_write_queues_the_callers_bytes() {
    let (mut sched, mut alloc, mut tx, mut rx, mut t) = environment();
    t.a7 = 3;
    t.a0 = 0x2000;
    t.a1 = 3;
    syscall_handler(&mut t, &mut sched, &mut alloc, &mut tx, &mut rx, 0, b"abc");
    assert_eq!(tx.uart_write_buffer_flush(), b"abc".to_vec());
}

#[test]
fn a_read_returns_the_line_and_its_count() {
    let (mut sched, mut alloc, mut tx, mut rx, mut t) = environment();
    rx.uart_irq_handler(b"hello\n");
    t.a7 = 4;
    t.a1 = 128;
    let line = syscall_handler(&mut t, &mut sched, &mut alloc, &mut tx, &mut rx, 0, &[]).unwrap();
    assert_eq!(t.a0, 6);
    assert_eq!(line, vec![104u8, 101, 108, 108, 111, 0]);
    t.a7 = 4;
    t.a1 = 128;
    let none = syscall_handler(&mut t, &mut sched, &mut alloc, &mut tx, &mut rx, 0, &[]);
    assert_eq!(none, None);
    assert_eq!(t.a0, 0);
}

#[test]
fn a_spawn_returns_the_new_id_and_enqueues_the_task() {
    let (mut sched, mut alloc, mut tx, mut rx, mut t) = environment();
    t.a7 = 6;
    t.a0 = 0xE000;
    t.a1 = 0x2000;
    t.a2 = 4;
    syscall_handler(&mut t, &mut sched, &mut alloc, &mut tx, &mut rx, 0, &[]);
    assert_eq!(t.a0, 2);
    assert_eq!(sched.get_task_state(2), TaskState::Ready);
}
