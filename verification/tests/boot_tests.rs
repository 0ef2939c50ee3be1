use rvkernel::boot::boot;
use rvkernel::boot::kernel;
use rvkernel::malloc::BumpAllocator;
use rvkernel::plic::plic_claim_complete_addr;
use rvkernel::plic::plic_init;
use rvkernel::plic::plic_source_enable_addr;
use rvkernel::plic::plic_source_priority_addr;
use rvkernel::plic::plic_threshold_addr;
use rvkernel::plic::PlicOp;
use rvkernel::riscv::Csrs;
use rvkernel::riscv::PrivilegeMode;
use rvkernel::sched::Scheduler;
use rvkernel::task::Stack;
use rvkernel::task::TaskState;
use rvkernel::task::TaskStruct;
use rvkernel::timer::mtimecmp_addr;
use rvkernel::timer::Timer;
use rvkernel::trap::Kernel;
use rvkernel::uart::ReadRing;
use rvkernel::uart::WriteRing;

#[test]
fn privilege_codes_match_the_architecture() {
    assert_eq!(PrivilegeMode::User.code(), 0b00);
    assert_eq!(PrivilegeMode::Supervisor.code(), 0b01);
    assert_eq!(PrivilegeMode::Machine.code(), 0b11);
}

#[test]
fn the_controller_registers_sit_at_their_documented_addresses() {
    assert_eq!(plic_source_priority_addr(10), 0xc00_0000 + 40);
    assert_eq!(plic_source_enable_addr(0, PrivilegeMode::Supervisor), 0xc00_2080);
    assert_eq!(plic_source_enable_addr(0, PrivilegeMode::Machine), 0xc00_2000);
    assert_eq!(plic_source_enable_addr(1, PrivilegeMode::Supervisor), 0xc00_2180);
    assert_eq!(plic_threshold_addr(0, PrivilegeMode::Supervisor), 0xc20_1000);
    assert_eq!(plic_claim_complete_addr(0, PrivilegeMode::Supervisor), 0xc20_1004);
    assert_eq!(mtimecmp_addr(0), 0x200_4000);
    assert_eq!(mtimecmp_addr(1), 0x200_4008);
}

#[test]
fn controller_setup_programs_priority_enable_and_threshold() {
    let ops = plic_init();
    assert_eq!(
        ops,
        vec![
            PlicOp::Store(0xc00_0028, 1),
            PlicOp::SetBits(0xc00_2080, 1 << 10),
            PlicOp::Store(0xc20_1000, 0),
        ]
    );
}

#[test]
fn the_timer_derives_ticks_from_the_cycle_counter() {
    let mut timer = Timer::new();
    let mut csrs = Csrs::new();
    let deadline = timer.timer_init(&mut csrs, 5000);
    assert_eq!(deadline, 15000);
    assert_eq!((csrs.mstatus >> 3) & 1, 1);
    assert_eq!((csrs.mie >> 7) & 1, 1);
    let deadline = timer.timer_handler(&mut csrs, 35000);
    assert_eq!(deadline, 45000);
    assert_eq!(timer.get_current_tick(), 3);
    assert_eq!((csrs.mip >> 3) & 1, 1);
    assert_eq!((csrs.sip >> 1) & 1, 1);
    assert_eq!(timer.get_tick_mtime(), 35000);
}

#[test]
fn a_task_stack_starts_sixteen_bytes_below_its_aligned_top() {
    let stack = Stack { base: 0x1000, size: 4096 };
    let sp = stack.initial_sp();
    assert_eq!(sp % 16, 0);
    assert_eq!(sp, 0x1000 + 4096 - 16);
}

#[test]
fn a_carved_stack_has_an_aligned_base_and_top() {
    // The allocator's break sits on an 8-byte boundary that is not a
    // 16-byte one; the stack still comes out 16-aligned.
    let mut alloc = BumpAllocator::new(0x1000);
    alloc.malloc(8).unwrap();
    let stack = Stack::new(&mut alloc, 4096).unwrap();
    assert_eq!(stack.base % 16, 0);
    assert_eq!((stack.base + stack.size) % 16, 0);
    assert_eq!(stack.size, 4096);
    assert_eq!(stack.initial_sp(), stack.base + stack.size - 16);
}

#[test]
fn a_blank_descriptor_is_zeroed_and_free() {
    let t = TaskStruct::new();
    assert_eq!(t.id, None);
    assert_eq!(t.state, TaskState::Free);
    assert_eq!(t.stack, None);
    assert_eq!(t.sleep_until, None);
    assert_eq!(t.xepc, 0);
    assert_eq!(t.a0, 0);
    assert_eq!(t.a7, 0);
    assert_eq!(t.sp, 0);
}

#[test]
fn machine_boot_programs_the_control_registers() {
    let mut k = Kernel {
        sched: Scheduler::new(),
        timer: Timer::new(),
        alloc: BumpAllocator::new(0x8000_0000),
        tx: WriteRing::new(),
        rx: ReadRing::new(),
        csrs: Csrs::new(),
    };
    let deadline = boot(&mut k, 100, 0x1000, 0x2000, 0x3000, 0x4000).unwrap();
    assert_eq!(deadline, 100 + 10000);
    assert_eq!(k.csrs.pmpaddr0, 0x3F_FFFF_FFFF_FFFF);
    assert_eq!(k.csrs.pmpcfg0, 0xF);
    assert_eq!(k.csrs.mtvec, 0x1000);
    assert_eq!(k.csrs.mideleg, 0x2AAA);
    assert_eq!(k.csrs.medeleg, 0xBBFF);
    assert_eq!(k.csrs.mepc, 0x2000);
    assert_eq!((k.csrs.mstatus >> 11) & 0b11, 1);
    assert_eq!(k.csrs.sepc, 0x3000);
    assert_eq!(k.csrs.sscratch, 0);
    let (ops, ier) = kernel(&mut k, 0x5000, 0x6000);
    assert_eq!(ops.len(), 3);
    assert_eq!(ier, 1);
    assert_eq!(k.csrs.stvec, 0x6000);
    assert_eq!((k.csrs.sstatus >> 8) & 1, 1);
    assert_eq!((k.csrs.sstatus >> 5) & 1, 1);
    assert_eq!((k.csrs.sie >> 1) & 1, 1);
    assert_eq!((k.csrs.sie >> 9) & 1, 1);
    // The shell is ready to run as task one.
    assert_eq!(k.sched.get_task_state(1), TaskState::Ready);
}
