//! Task descriptors: the register file the trap path spills into, the task
//! state, and the per-task stack.

use crate::malloc::BumpAllocator;
use vstd::prelude::*;

verus! {

/// Bytes of stack given to each task.
pub const USER_STACK_SIZE: usize = 4096;

/// The stack pointer a task starts with is aligned to this many bytes, as
/// is the top of every stack.
pub const USER_STACK_ALIGNMENT: u64 = 16;

/// Bytes requested from the heap for one stack: the stack itself plus the
/// slack needed to move its base up to a 16-byte boundary.
pub const STACK_ALLOC_SIZE: usize = 4096 + 8;

/// Lifecycle state of a task descriptor.  `Free` marks a slot that has
/// been returned to the pool.
#[derive(Clone, Copy, PartialEq, Eq, Structural, Debug)]
pub enum TaskState {
    Free,
    Ready,
    Running,
    Sleeping,
    Blocked,
}

/// A task's stack: a contiguous byte range carved out of the kernel heap.
#[derive(Clone, Copy, PartialEq, Eq, Structural, Debug)]
pub struct Stack {
    /// Address of the lowest byte.
    pub base: u64,
    /// Length of the range in bytes.
    pub size: u64,
}

/// The base a stack carved at the allocator's next address receives: the
/// address itself when it already sits on a 16-byte boundary, eight bytes
/// up otherwise.
pub open spec fn stack_base_for(alloc: &BumpAllocator) -> int {
    let p = alloc.alloc_addr();
    if p % 16 == 0 {
        p
    } else {
        p + 8
    }
}

impl Stack {
    /// Carve `nbytes` of stack out of the heap, with base and top on
    /// 16-byte boundaries; `None` when the heap is exhausted.  Eight slack
    /// bytes are requested beyond the stack so that the 8-aligned heap
    /// address can be moved up to a 16-byte boundary.
    pub fn new(alloc: &mut BumpAllocator, nbytes: usize) -> (r: Option<Stack>)
        requires
            old(alloc).wf(),
            nbytes % 16 == 0,
            nbytes + 8 <= usize::MAX,
        ensures
            final(alloc).wf(),
            r is Some <==> old(alloc).can_alloc((nbytes + 8) as usize),
            r is None ==> *final(alloc) == *old(alloc),
            r is Some ==> {
                &&& r->Some_0.base == stack_base_for(old(alloc))
                &&& r->Some_0.size == nbytes
                &&& r->Some_0.base % 16 == 0
                &&& r->Some_0.size % 16 == 0
                &&& r->Some_0.base + r->Some_0.size <= u64::MAX
                &&& *final(alloc) == old(alloc).alloc_next((nbytes + 8) as usize)
            },
    {
        match alloc.malloc(nbytes + 8) {
            Some(p) => {
                proof {
                    assert(p % 16 == 0 || p % 16 == 8) by (nonlinear_arith)
                        requires
                            p % 8 == 0,
                    ;
                    if p % 16 != 0 {
                        assert((p + 8) % 16 == 0) by (nonlinear_arith)
                            requires
                                p % 16 == 8,
                                p + 8 <= u64::MAX,
                        ;
                    }
                }
                let base: u64 = if p % 16 == 0 {
                    p
                } else {
                    p + 8
                };
                Some(Stack { base, size: nbytes as u64 })
            },
            None => None,
        }
    }

    /// The stack pointer value a fresh task on this stack starts with:
    /// sixteen bytes below the top.
    pub open spec fn spec_initial_sp(&self) -> int {
        self.base + self.size - 16
    }

    /// The stack pointer a fresh task starts with: sixteen bytes below the
    /// 16-aligned top.
    pub fn initial_sp(&self) -> (sp: u64)
        requires
            self.size >= 16,
            self.base % 16 == 0,
            self.size % 16 == 0,
            self.base + self.size <= u64::MAX,
        ensures
            sp == self.spec_initial_sp(),
            sp % USER_STACK_ALIGNMENT == 0,
            sp == self.base + self.size - 16,
    {
        proof {
            assert((self.base + self.size - 16) % 16 == 0) by (nonlinear_arith)
                requires
                    self.base % 16 == 0,
                    self.size % 16 == 0,
                    self.size >= 16,
                    self.base + self.size <= u64::MAX,
            ;
        }
        self.base + self.size - 16
    }
}

/// The task descriptor: identity, scheduling state, and the saved integer
/// register file the trap entry spills into.
#[derive(Clone, Copy)]
pub struct TaskStruct {
    /// Identity of a live task; `None` while the slot sits in the pool.
    pub id: Option<u64>,
    pub state: TaskState,
    pub stack: Option<Stack>,
    /// Tick at which a sleeping task becomes eligible again.
    pub sleep_until: Option<u64>,
    /// Program counter to resume at.
    pub xepc: u64,
    /// Trap cause captured at entry.
    pub xcause: u64,
    pub ra: u64,
    pub sp: u64,
    pub gp: u64,
    pub tp: u64,
    pub t0: u64,
    pub t1: u64,
    pub t2: u64,
    pub t3: u64,
    pub t4: u64,
    pub t5: u64,
    pub t6: u64,
    pub s0: u64,
    pub s1: u64,
    pub s2: u64,
    pub s3: u64,
    pub s4: u64,
    pub s5: u64,
    pub s6: u64,
    pub s7: u64,
    pub s8: u64,
    pub s9: u64,
    pub s10: u64,
    pub s11: u64,
    pub a0: u64,
    pub a1: u64,
    pub a2: u64,
    pub a3: u64,
    pub a4: u64,
    pub a5: u64,
    pub a6: u64,
    pub a7: u64,
}

/// The zeroed descriptor [`TaskStruct::new`] returns.
pub open spec fn blank_task() -> TaskStruct {
    TaskStruct {
        id: None,
        state: TaskState::Free,
        stack: None,
        sleep_until: None,
        xepc: 0,
        xcause: 0,
        ra: 0,
        sp: 0,
        gp: 0,
        tp: 0,
        t0: 0,
        t1: 0,
        t2: 0,
        t3: 0,
        t4: 0,
        t5: 0,
        t6: 0,
        s0: 0,
        s1: 0,
        s2: 0,
        s3: 0,
        s4: 0,
        s5: 0,
        s6: 0,
        s7: 0,
        s8: 0,
        s9: 0,
        s10: 0,
        s11: 0,
        a0: 0,
        a1: 0,
        a2: 0,
        a3: 0,
        a4: 0,
        a5: 0,
        a6: 0,
        a7: 0,
    }
}

impl TaskStruct {
    /// A zeroed descriptor marking a free slot.
    pub fn new() -> (r: Self)
        ensures
            r == blank_task(),
    {
        TaskStruct {
            id: None,
            state: TaskState::Free,
            stack: None,
            sleep_until: None,
            xepc: 0,
            xcause: 0,
            ra: 0,
            sp: 0,
            gp: 0,
            tp: 0,
            t0: 0,
            t1: 0,
            t2: 0,
            t3: 0,
            t4: 0,
            t5: 0,
            t6: 0,
            s0: 0,
            s1: 0,
            s2: 0,
            s3: 0,
            s4: 0,
            s5: 0,
            s6: 0,
            s7: 0,
            s8: 0,
            s9: 0,
            s10: 0,
            s11: 0,
            a0: 0,
            a1: 0,
            a2: 0,
            a3: 0,
            a4: 0,
            a5: 0,
            a6: 0,
            a7: 0,
        }
    }
}

} // verus!
