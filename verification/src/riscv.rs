//! Privilege modes and the machine/supervisor control and status registers.
//!
//! The register file is held as plain values: the trap path and the boot
//! sequence compute every CSR write over this model, and the thin unverified
//! layer copies the fields to the hardware registers of the same names.

use vstd::prelude::*;

verus! {

/// RISC-V privilege levels, as programmed into `mstatus.MPP` and
/// `sstatus.SPP` before `mret`/`sret`.
#[derive(Clone, Copy, PartialEq, Eq, Structural, Debug)]
pub enum PrivilegeMode {
    User,
    Supervisor,
    Machine,
}

impl PrivilegeMode {
    /// The two-bit encoding of the privilege level.
    pub fn code(&self) -> (r: u64)
        ensures
            r == self.spec_code(),
    {
        match self {
            PrivilegeMode::User => 0b00,
            PrivilegeMode::Supervisor => 0b01,
            PrivilegeMode::Machine => 0b11,
        }
    }

    pub open spec fn spec_code(&self) -> u64 {
        match self {
            PrivilegeMode::User => 0b00,
            PrivilegeMode::Supervisor => 0b01,
            PrivilegeMode::Machine => 0b11,
        }
    }
}

// Bit positions within `mstatus` / `sstatus` and the interrupt CSRs.
pub const MSTATUS_MIE: u64 = 3;

pub const MSTATUS_MPIE: u64 = 7;

pub const MSTATUS_MPP: u64 = 11;

pub const MSTATUS_MPP_MASK: u64 = 0b11 << 11;

pub const MIE_MSIE: u64 = 3;

pub const MIE_MTIE: u64 = 7;

pub const MIE_MEIE: u64 = 11;

pub const MIP_MSIP: u64 = 3;

pub const MIP_MTIP: u64 = 7;

pub const MIP_MEIP: u64 = 11;

pub const SSTATUS_SIE: u64 = 1;

pub const SSTATUS_SPIE: u64 = 5;

pub const SSTATUS_SPP: u64 = 8;

pub const SSTATUS_SPP_MASK: u64 = 0b1 << 8;

pub const SIE_SSIE: u64 = 1;

pub const SIE_STIE: u64 = 5;

pub const SIE_SEIE: u64 = 9;

pub const SIP_SSIP: u64 = 1;

pub const SIP_STIP: u64 = 5;

pub const SIP_SEIP: u64 = 9;

/// The machine- and supervisor-level control and status registers the
/// kernel programs, as one record of plain values.
pub struct Csrs {
    pub mstatus: u64,
    pub medeleg: u64,
    pub mideleg: u64,
    pub mie: u64,
    pub mtvec: u64,
    pub mscratch: u64,
    pub mepc: u64,
    pub mcause: u64,
    pub mtval: u64,
    pub mip: u64,
    pub sstatus: u64,
    pub sie: u64,
    pub stvec: u64,
    pub sscratch: u64,
    pub sepc: u64,
    pub scause: u64,
    pub stval: u64,
    pub sip: u64,
    pub pmpaddr0: u64,
    pub pmpcfg0: u64,
}

impl Csrs {
    /// All registers in their reset state.
    pub fn new() -> (r: Self)
        ensures
            r == (Csrs {
                mstatus: 0u64,
                medeleg: 0u64,
                mideleg: 0u64,
                mie: 0u64,
                mtvec: 0u64,
                mscratch: 0u64,
                mepc: 0u64,
                mcause: 0u64,
                mtval: 0u64,
                mip: 0u64,
                sstatus: 0u64,
                sie: 0u64,
                stvec: 0u64,
                sscratch: 0u64,
                sepc: 0u64,
                scause: 0u64,
                stval: 0u64,
                sip: 0u64,
                pmpaddr0: 0u64,
                pmpcfg0: 0u64,
            }),
    {
        Csrs {
            mstatus: 0,
            medeleg: 0,
            mideleg: 0,
            mie: 0,
            mtvec: 0,
            mscratch: 0,
            mepc: 0,
            mcause: 0,
            mtval: 0,
            mip: 0,
            sstatus: 0,
            sie: 0,
            stvec: 0,
            sscratch: 0,
            sepc: 0,
            scause: 0,
            stval: 0,
            sip: 0,
            pmpaddr0: 0,
            pmpcfg0: 0,
        }
    }

    /// The previous-privilege field of `mstatus`, as a two-bit value.
    pub open spec fn mstatus_pp(&self) -> u64 {
        (self.mstatus >> 11) & 0b11
    }

    /// The previous-privilege bit of `sstatus`.
    pub open spec fn sstatus_pp(&self) -> u64 {
        (self.sstatus >> 8) & 0b1
    }

    /// Clear `mstatus.MPP`, then or in the two-bit code of `mode`.
    pub fn mstatus_set_pp(&mut self, mode: PrivilegeMode)
        ensures
            *final(self) == (Csrs {
                mstatus: final(self).mstatus,
                ..*old(self)
            }),
            final(self).mstatus_pp() == mode.spec_code(),
            final(self).mstatus & !MSTATUS_MPP_MASK == old(self).mstatus & !MSTATUS_MPP_MASK,
    {
        let code = mode.code();
        let cleared = self.mstatus & !MSTATUS_MPP_MASK;
        self.mstatus = cleared | (code << 11);
        proof {
            let m = old(self).mstatus;
            let c = mode.spec_code();
            assert(c <= 3);
            assert((((m & !(0b11u64 << 11)) | (c << 11)) >> 11) & 0b11 == c && ((m & !(0b11u64
                << 11)) | (c << 11)) & !(0b11u64 << 11) == m & !(0b11u64 << 11)) by (bit_vector)
                requires
                    c <= 3,
            ;
        }
    }

    /// Clear `sstatus.SPP`, then or in the low bit of the code of `mode`.
    pub fn sstatus_set_pp(&mut self, mode: PrivilegeMode)
        ensures
            *final(self) == (Csrs {
                sstatus: final(self).sstatus,
                ..*old(self)
            }),
            final(self).sstatus_pp() == (if mode == PrivilegeMode::User {
                0u64
            } else {
                1u64
            }),
            final(self).sstatus & !SSTATUS_SPP_MASK == old(self).sstatus & !SSTATUS_SPP_MASK,
    {
        let code = mode.code();
        let cleared = self.sstatus & !SSTATUS_SPP_MASK;
        self.sstatus = cleared | ((code & 0b1) << 8);
        proof {
            let m = old(self).sstatus;
            let c = mode.spec_code();
            assert((((m & !(0b1u64 << 8)) | ((c & 0b1) << 8)) >> 8) & 0b1 == c & 0b1 && ((m
                & !(0b1u64 << 8)) | ((c & 0b1) << 8)) & !(0b1u64 << 8) == m & !(0b1u64 << 8))
                by (bit_vector);
            match mode {
                PrivilegeMode::User => {
                    assert(0u64 & 0b1 == 0) by (bit_vector);
                },
                PrivilegeMode::Supervisor => {
                    assert(1u64 & 0b1 == 1) by (bit_vector);
                },
                PrivilegeMode::Machine => {
                    assert(3u64 & 0b1 == 1) by (bit_vector);
                },
            }
        }
    }
}

} // verus!
