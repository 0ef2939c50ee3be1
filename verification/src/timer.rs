//! CLINT-driven tick generator.
//!
//! The machine timer fires every `INTERRUPT_INTERVAL` cycles.  Its handler
//! cross-posts a supervisor software interrupt, rearms the compare register
//! and recomputes the wall-clock tick from the cycle counter.  The cycle
//! counter `mtime` is hardware state and comes in as an argument; the
//! computed `mtimecmp` value goes back out for the caller to store.

use crate::riscv::Csrs;
use crate::riscv::MIE_MTIE;
use crate::riscv::MIP_MSIP;
use crate::riscv::MSTATUS_MIE;
use crate::riscv::SIP_SSIP;
use vstd::prelude::*;

verus! {

pub const CLINT_BASE: u64 = 0x200_0000;

pub const MTIMECMP_BASE: u64 = CLINT_BASE + 0x4000;

pub const MTIME_BASE: u64 = CLINT_BASE + 0xBFF8;

/// Cycles between machine timer interrupts.
pub const INTERRUPT_INTERVAL: u64 = 10000;

/// Cycles per kernel tick.
pub const TICK_INTERVAL: u64 = 10000;

/// The address of the `mtimecmp` register of one hart.
pub fn mtimecmp_addr(hart_id: u64) -> (r: u64)
    requires
        hart_id < 4096,
    ensures
        r == MTIMECMP_BASE + hart_id * 8,
{
    MTIMECMP_BASE + hart_id * 8
}

/// Timer state: the cycle counter at initialisation and the tick count
/// derived from it since.
pub struct Timer {
    initial_mtime: u64,
    current_tick: u64,
}

impl Timer {
    pub closed spec fn spec_initial_mtime(&self) -> u64 {
        self.initial_mtime
    }

    pub closed spec fn spec_tick(&self) -> u64 {
        self.current_tick
    }

    pub fn new() -> (r: Self)
        ensures
            r.spec_initial_mtime() == 0,
            r.spec_tick() == 0,
    {
        Timer { initial_mtime: 0, current_tick: 0 }
    }

    pub fn get_current_tick(&self) -> (r: u64)
        ensures
            r == self.spec_tick(),
    {
        self.current_tick
    }

    pub fn set_current_tick(&mut self, tick: u64)
        ensures
            final(self).spec_tick() == tick,
            final(self).spec_initial_mtime() == old(self).spec_initial_mtime(),
    {
        self.current_tick = tick;
    }

    /// The cycle count at which the current tick began.
    pub fn get_tick_mtime(&self) -> (r: u64)
        requires
            self.spec_initial_mtime() + self.spec_tick() * TICK_INTERVAL <= u64::MAX,
        ensures
            r == self.spec_initial_mtime() + self.spec_tick() * TICK_INTERVAL,
    {
        self.initial_mtime + self.current_tick * TICK_INTERVAL
    }

    /// Record the initial cycle count, enable the machine timer interrupt,
    /// and return the first `mtimecmp` deadline to program.
    pub fn timer_init(&mut self, csrs: &mut Csrs, mtime: u64) -> (deadline: u64)
        requires
            mtime + INTERRUPT_INTERVAL <= u64::MAX,
        ensures
            final(self).spec_initial_mtime() == mtime,
            final(self).spec_tick() == old(self).spec_tick(),
            deadline == mtime + INTERRUPT_INTERVAL,
            *final(csrs) == (Csrs {
                mstatus: old(csrs).mstatus | (1u64 << MSTATUS_MIE),
                mie: old(csrs).mie | (1u64 << MIE_MTIE),
                ..*old(csrs)
            }),
    {
        self.initial_mtime = mtime;
        csrs.mstatus = csrs.mstatus | (1u64 << MSTATUS_MIE);
        csrs.mie = csrs.mie | (1u64 << MIE_MTIE);
        mtime + INTERRUPT_INTERVAL
    }

    /// Machine timer interrupt: post a machine and a supervisor software
    /// interrupt, advance the tick from the cycle counter, and return the
    /// next `mtimecmp` deadline.
    pub fn timer_handler(&mut self, csrs: &mut Csrs, mtime: u64) -> (deadline: u64)
        requires
            mtime >= old(self).spec_initial_mtime(),
            mtime + INTERRUPT_INTERVAL <= u64::MAX,
        ensures
            final(self).spec_initial_mtime() == old(self).spec_initial_mtime(),
            final(self).spec_tick() == (mtime - old(self).spec_initial_mtime()) as u64
                / TICK_INTERVAL,
            deadline == mtime + INTERRUPT_INTERVAL,
            *final(csrs) == (Csrs {
                mip: old(csrs).mip | (1u64 << MIP_MSIP),
                sip: old(csrs).sip | (1u64 << SIP_SSIP),
                ..*old(csrs)
            }),
    {
        csrs.mip = csrs.mip | (1u64 << MIP_MSIP);
        csrs.sip = csrs.sip | (1u64 << SIP_SSIP);
        let delta = mtime - self.initial_mtime;
        self.current_tick = delta / TICK_INTERVAL;
        mtime + INTERRUPT_INTERVAL
    }
}

} // verus!
