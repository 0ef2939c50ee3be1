//! Platform-level interrupt controller register map.
//!
//! The controller itself is a memory-mapped device; this module computes
//! the register addresses and the values to store, and the thin hardware
//! layer performs the accesses.  Claim and complete are single register
//! reads and writes at the address computed here.

use crate::riscv::PrivilegeMode;
use vstd::prelude::*;

verus! {

pub const PLIC_BASE: u64 = 0xc00_0000;

pub const PLIC_SOURCE_PRIORITY: u64 = PLIC_BASE;

pub const PLIC_SOURCE_ENABLE: u64 = PLIC_BASE + 0x2000;

pub const PLIC_PRIORITY_THRESHOLD: u64 = PLIC_BASE + 0x20_0000;

pub const PLIC_CLAIM_COMPLETE: u64 = PLIC_BASE + 0x20_0004;

/// The UART0 interrupt id.
pub const UART0_IRQ: u32 = 10;

/// Offset of the supervisor-mode enable bank within one hart's stride.
pub const ENABLE_S_MODE_SHIFT: u64 = 0x80;

/// Offset of the supervisor-mode threshold and claim registers within one
/// hart's stride.
pub const CONTEXT_S_MODE_SHIFT: u64 = 0x1000;

/// The priority register of one interrupt source.
pub fn plic_source_priority_addr(irq: u32) -> (r: u64)
    ensures
        r == PLIC_SOURCE_PRIORITY + irq * 4,
{
    PLIC_SOURCE_PRIORITY + (irq as u64) * 4
}

/// The enable bank of one hart and privilege mode.
pub fn plic_source_enable_addr(hart: u64, mode: PrivilegeMode) -> (r: u64)
    requires
        hart < 4096,
    ensures
        r == PLIC_SOURCE_ENABLE + hart * 0x100 + (if mode == PrivilegeMode::Supervisor {
            ENABLE_S_MODE_SHIFT as int
        } else {
            0int
        }),
{
    let mode_shift: u64 = if mode.code() == 1 {
        ENABLE_S_MODE_SHIFT
    } else {
        0
    };
    PLIC_SOURCE_ENABLE + hart * 0x100 + mode_shift
}

/// The threshold register of one hart and privilege mode.
pub fn plic_threshold_addr(hart: u64, mode: PrivilegeMode) -> (r: u64)
    requires
        hart < 4096,
    ensures
        r == PLIC_PRIORITY_THRESHOLD + hart * 0x2000 + (if mode == PrivilegeMode::Supervisor {
            CONTEXT_S_MODE_SHIFT as int
        } else {
            0int
        }),
{
    let mode_shift: u64 = if mode.code() == 1 {
        CONTEXT_S_MODE_SHIFT
    } else {
        0
    };
    PLIC_PRIORITY_THRESHOLD + hart * 0x2000 + mode_shift
}

/// The claim/complete register of one hart and privilege mode.
pub fn plic_claim_complete_addr(hart: u64, mode: PrivilegeMode) -> (r: u64)
    requires
        hart < 4096,
    ensures
        r == PLIC_CLAIM_COMPLETE + hart * 0x2000 + (if mode == PrivilegeMode::Supervisor {
            CONTEXT_S_MODE_SHIFT as int
        } else {
            0int
        }),
{
    let mode_shift: u64 = if mode.code() == 1 {
        CONTEXT_S_MODE_SHIFT
    } else {
        0
    };
    PLIC_CLAIM_COMPLETE + hart * 0x2000 + mode_shift
}

/// One register access the controller setup asks the hardware layer to
/// perform.
#[derive(Clone, Copy, PartialEq, Eq, Structural, Debug)]
pub enum PlicOp {
    /// Store the value at the address.
    Store(u64, u32),
    /// Or the mask into the register at the address.
    SetBits(u64, u32),
}

/// The accesses that bring the controller up for hart zero in supervisor
/// mode: UART0 at priority one, its enable bit set, and a threshold of
/// zero.
pub fn plic_init() -> (ops: Vec<PlicOp>)
    ensures
        ops@.len() == 3,
        ops@[0] == PlicOp::Store((PLIC_SOURCE_PRIORITY + UART0_IRQ * 4) as u64, 1u32),
        ops@[1] == PlicOp::SetBits((PLIC_SOURCE_ENABLE + ENABLE_S_MODE_SHIFT) as u64, 0x400u32),
        ops@[2] == PlicOp::Store((PLIC_PRIORITY_THRESHOLD + CONTEXT_S_MODE_SHIFT) as u64, 0u32),
{
    let mut ops: Vec<PlicOp> = Vec::new();
    let prio = plic_source_priority_addr(UART0_IRQ);
    ops.push(PlicOp::Store(prio, 1));
    let enable = plic_source_enable_addr(0, PrivilegeMode::Supervisor);
    ops.push(PlicOp::SetBits(enable, 0x400));
    let threshold = plic_threshold_addr(0, PrivilegeMode::Supervisor);
    ops.push(PlicOp::Store(threshold, 0));
    ops
}

} // verus!
