//! The system-call surface: numbers, decoding, and the handler.
//!
//! Arguments arrive in the caller's saved `a0..a2`, the call number in
//! `a7`, and the result goes back in `a0`.  Calls that read or write user
//! memory cannot dereference it from here: the trap layer hands in the
//! bytes behind the write pointer and carries the read bytes back out.

use crate::malloc::BumpAllocator;
use crate::sched::created_task;
use crate::sched::observed_state;
use crate::sched::Scheduler;
use crate::task::TaskState;
use crate::task::TaskStruct;
use crate::uart::first_nl;
use crate::uart::norm_prefix;
use crate::uart::spec_room;
use crate::uart::ReadRing;
use crate::uart::WriteRing;
use vstd::prelude::*;

verus! {

/// The system calls, in the order of their numbers, from zero.
#[derive(Clone, Copy, PartialEq, Eq, Structural, Debug)]
pub enum Syscall {
    Yield,
    Exit,
    Sleep,
    Write,
    Read,
    Wait,
    Spawn,
    Alloc,
    Unknown,
}

impl Syscall {
    pub open spec fn spec_code(&self) -> u64 {
        match self {
            Syscall::Yield => 0,
            Syscall::Exit => 1,
            Syscall::Sleep => 2,
            Syscall::Write => 3,
            Syscall::Read => 4,
            Syscall::Wait => 5,
            Syscall::Spawn => 6,
            Syscall::Alloc => 7,
            Syscall::Unknown => 8,
        }
    }

    /// The number a task loads into `a7` for this call.
    pub fn code(&self) -> (r: u64)
        ensures
            r == self.spec_code(),
    {
        match self {
            Syscall::Yield => 0,
            Syscall::Exit => 1,
            Syscall::Sleep => 2,
            Syscall::Write => 3,
            Syscall::Read => 4,
            Syscall::Wait => 5,
            Syscall::Spawn => 6,
            Syscall::Alloc => 7,
            Syscall::Unknown => 8,
        }
    }

    pub open spec fn spec_from(code: u64) -> Syscall {
        if code == 0 {
            Syscall::Yield
        } else if code == 1 {
            Syscall::Exit
        } else if code == 2 {
            Syscall::Sleep
        } else if code == 3 {
            Syscall::Write
        } else if code == 4 {
            Syscall::Read
        } else if code == 5 {
            Syscall::Wait
        } else if code == 6 {
            Syscall::Spawn
        } else if code == 7 {
            Syscall::Alloc
        } else {
            Syscall::Unknown
        }
    }

    /// The call a number in `a7` names; anything past the table is
    /// `Unknown`.
    pub fn from(code: u64) -> (r: Syscall)
        ensures
            r == Self::spec_from(code),
    {
        match code {
            0 => Syscall::Yield,
            1 => Syscall::Exit,
            2 => Syscall::Sleep,
            3 => Syscall::Write,
            4 => Syscall::Read,
            5 => Syscall::Wait,
            6 => Syscall::Spawn,
            7 => Syscall::Alloc,
            _ => Syscall::Unknown,
        }
    }
}

/// A task resumed past its `ecall`, ready for the next round.
pub open spec fn advanced(t: TaskStruct) -> TaskStruct {
    TaskStruct { state: TaskState::Ready, xepc: (t.xepc + 4) as u64, ..t }
}

/// How many bytes a read of capacity `len` delivers from the receive ring:
/// zero without a complete line, otherwise the line through its newline,
/// truncated to the capacity.
pub open spec fn read_count(rx: &ReadRing, len: u64) -> int {
    if len == 0 || rx.lines() == 0 {
        0
    } else {
        let p = first_nl(rx.view());
        if p + 2 <= len {
            p + 1
        } else {
            len as int
        }
    }
}

/// The caller's descriptor after the system call `t.a7` runs: its new
/// state, resumption point, and the result placed in `a0`.
pub open spec fn task_after_syscall(
    t: TaskStruct,
    now: u64,
    sched: &Scheduler,
    alloc: &BumpAllocator,
    rx: &ReadRing,
) -> TaskStruct {
    if t.a7 == 0 {
        advanced(t)
    } else if t.a7 == 1 {
        TaskStruct { state: TaskState::Free, ..t }
    } else if t.a7 == 2 {
        TaskStruct {
            state: TaskState::Sleeping,
            sleep_until: Some((now + t.a0) as u64),
            ..advanced(t)
        }
    } else if t.a7 == 3 {
        advanced(t)
    } else if t.a7 == 4 {
        TaskStruct { a0: read_count(rx, t.a1) as u64, ..advanced(t) }
    } else if t.a7 == 5 {
        TaskStruct {
            state: TaskState::Ready,
            xepc: if observed_state(sched, t.a0) == TaskState::Free {
                (t.xepc + 4) as u64
            } else {
                t.xepc
            },
            ..t
        }
    } else if t.a7 == 6 {
        TaskStruct {
            a0: if sched.pool.view().len() > 0 || alloc.can_alloc(
                crate::task::STACK_ALLOC_SIZE,
            ) {
                sched.new_task_id
            } else {
                0
            },
            ..advanced(t)
        }
    } else {
        TaskStruct {
            a0: if alloc.can_alloc(t.a0 as usize) {
                alloc.alloc_addr() as u64
            } else {
                0
            },
            ..advanced(t)
        }
    }
}

/// Run the system call the caller's `a7` names against the kernel state.
/// The bytes behind a write call's pointer come in as `write_data`; the
/// bytes a read call delivers go back out for the trap layer to copy into
/// the caller's buffer.  An unknown call number is a terminal fault and is
/// excluded here; the trap layer checks before calling.
pub fn syscall_handler(
    task: &mut TaskStruct,
    sched: &mut Scheduler,
    alloc: &mut BumpAllocator,
    tx: &mut WriteRing,
    rx: &mut ReadRing,
    now: u64,
    write_data: &[u8],
) -> (read_back: Option<Vec<u8>>)
    requires
        old(task).a7 <= 7,
        old(task).xepc + 4 <= u64::MAX,
        old(sched).wf(),
        old(sched).new_task_id < u64::MAX,
        old(alloc).wf(),
        old(tx).wf(),
        old(rx).wf(),
        old(task).a7 == 2 ==> now + old(task).a0 <= u64::MAX,
        old(task).a7 == 3 ==> write_data@.len() == old(task).a1,
        old(task).a7 == 4 ==> old(task).a1 <= usize::MAX,
        old(task).a7 == 7 ==> old(task).a0 <= usize::MAX,
    ensures
        final(sched).wf(),
        final(alloc).wf(),
        final(tx).wf(),
        final(rx).wf(),
        *final(task) == task_after_syscall(*old(task), now, old(sched), old(alloc), old(rx)),
        old(task).a7 != 6 ==> *final(sched) == *old(sched),
        old(task).a7 != 6 && old(task).a7 != 7 ==> *final(alloc) == *old(alloc),
        old(task).a7 != 3 ==> *final(tx) == *old(tx),
        old(task).a7 == 3 ==> final(tx).view() == old(tx).view() + write_data@.take(
            spec_room(old(tx).view(), write_data@),
        ),
        old(task).a7 != 4 ==> *final(rx) == *old(rx),
        old(task).a7 == 4 ==> {
            let cnt = read_count(old(rx), old(task).a1);
            &&& (cnt == 0 ==> *final(rx) == *old(rx) && read_back is None)
            &&& (cnt > 0 ==> {
                let p = first_nl(old(rx).view());
                &&& final(rx).view() == old(rx).view().skip(p + 1)
                &&& final(rx).lines() == old(rx).lines() - 1
                &&& read_back is Some
                &&& read_back->Some_0@.len() == cnt
                &&& read_back->Some_0@ == (if p + 2 <= old(task).a1 {
                    old(rx).view().take(p).push(0)
                } else {
                    old(rx).view().take(old(task).a1 - 1).push(0)
                })
            })
        },
        old(task).a7 != 4 ==> read_back is None,
        old(task).a7 == 6 ==> {
            let created = old(sched).pool.view().len() > 0 || old(alloc).can_alloc(
                crate::task::STACK_ALLOC_SIZE,
            );
            &&& (!created ==> *final(sched) == *old(sched) && *final(alloc) == *old(alloc))
            &&& (created ==> {
                &&& final(sched).running_list.view() == old(sched).running_list.view().push(
                    created_task(old(sched), old(alloc), old(task).a0, old(task).a1, old(task).a2),
                )
                &&& final(sched).waiting_list == old(sched).waiting_list
                &&& final(sched).blocked_list == old(sched).blocked_list
                &&& final(sched).current == old(sched).current
                &&& final(sched).new_task_id == old(sched).new_task_id + 1
                &&& final(sched).idle_task == old(sched).idle_task
                &&& final(sched).task_start == old(sched).task_start
                &&& (old(sched).pool.view().len() > 0 ==> final(sched).pool.view() == old(
                    sched,
                ).pool.view().skip(1) && *final(alloc) == *old(alloc))
                &&& (old(sched).pool.view().len() == 0 ==> final(sched).pool.view() == old(
                    sched,
                ).pool.view() && *final(alloc) == old(alloc).alloc_next(
                    crate::task::STACK_ALLOC_SIZE,
                ))
            })
        },
        old(task).a7 == 7 ==> {
            &&& (old(alloc).can_alloc(old(task).a0 as usize) ==> *final(alloc) == old(
                alloc,
            ).alloc_next(old(task).a0 as usize))
            &&& (!old(alloc).can_alloc(old(task).a0 as usize) ==> *final(alloc) == *old(alloc))
        },
{
    let syscall = Syscall::from(task.a7);
    match syscall {
        Syscall::Yield => {
            task.state = TaskState::Ready;
            task.xepc = task.xepc + 4;
            None
        },
        Syscall::Exit => {
            task.state = TaskState::Free;
            None
        },
        Syscall::Sleep => {
            task.state = TaskState::Sleeping;
            task.xepc = task.xepc + 4;
            task.sleep_until = Some(now + task.a0);
            None
        },
        Syscall::Write => {
            task.state = TaskState::Ready;
            task.xepc = task.xepc + 4;
            tx.uart_write(write_data);
            None
        },
        Syscall::Read => {
            task.state = TaskState::Ready;
            task.xepc = task.xepc + 4;
            let len = task.a1 as usize;
            let r = rx.uart_read(len);
            match r {
                Some(line) => {
                    task.a0 = line.len() as u64;
                    proof {
                        let p = first_nl(old(rx).view());
                        if p + 2 <= old(task).a1 {
                            assert(line@.len() == p + 1);
                        } else {
                            assert(line@.len() == len);
                        }
                    }
                    Some(line)
                },
                None => {
                    task.a0 = 0;
                    None
                },
            }
        },
        Syscall::Wait => {
            task.state = TaskState::Ready;
            let wait_id = task.a0;
            if sched.get_task_state(wait_id) == TaskState::Free {
                task.xepc = task.xepc + 4;
            }
            None
        },
        Syscall::Spawn => {
            task.state = TaskState::Ready;
            task.xepc = task.xepc + 4;
            let id = sched.task_create(alloc, task.a0, task.a1, task.a2);
            task.a0 = match id {
                Some(v) => v,
                None => 0,
            };
            None
        },
        Syscall::Alloc => {
            task.state = TaskState::Ready;
            task.xepc = task.xepc + 4;
            let nbytes = task.a0 as usize;
            task.a0 = match alloc.malloc(nbytes) {
                Some(p) => p,
                None => 0,
            };
            None
        },
        Syscall::Unknown => unreached(),
    }
}

} // verus!
