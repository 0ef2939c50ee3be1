//! The task scheduler: a round-robin over four queues and a fallback idle
//! task.
//!
//! `running` holds the tasks still owed service this round, `waiting` those
//! already served, `blocked` the sleepers, and `pool` retired descriptors
//! kept for reuse.  A round ends when `running` drains; the two queues then
//! swap.  The descriptor the CPU is currently executing sits in `waiting`
//! (it was moved there when it was installed); `current` remembers where.
//!
//! Installing a task means writing its resumption point into `sepc` and its
//! identity into `sscratch`; the model stores the task id in `sscratch`,
//! with zero standing for the idle task, which owns no id.

use crate::list::LinkedList;
use crate::malloc::BumpAllocator;
use crate::riscv::Csrs;
use crate::riscv::PrivilegeMode;
use crate::task::Stack;
use crate::task::TaskState;
use crate::task::TaskStruct;
use crate::task::USER_STACK_SIZE;
use vstd::prelude::*;

verus! {

/// The descriptor a successful creation enqueues, given the scheduler and
/// allocator going in: a recycled pool slot or a freshly stacked blank,
/// with identity, arguments and entry filled in.
pub open spec fn created_task(
    s: &Scheduler,
    alloc: &BumpAllocator,
    entry: u64,
    args: u64,
    len: u64,
) -> TaskStruct {
    if s.pool.view().len() > 0 {
        Scheduler::fresh_task(s.pool.view()[0], s.new_task_id, s.task_start, entry, args, len)
    } else {
        Scheduler::fresh_task(
            TaskStruct {
                stack: Some(
                    Stack {
                        base: crate::task::stack_base_for(alloc) as u64,
                        size: USER_STACK_SIZE as u64,
                    },
                ),
                ..crate::task::blank_task()
            },
            s.new_task_id,
            s.task_start,
            entry,
            args,
            len,
        )
    }
}

/// Where the descriptor the CPU is executing lives: the idle task, or a
/// node of the waiting queue.
#[derive(Clone, Copy, PartialEq, Eq, Structural, Debug)]
pub enum Current {
    Idle,
    Node(usize),
}

/// The scheduler state for the one active hart.
pub struct Scheduler {
    pub running_list: LinkedList<TaskStruct>,
    pub waiting_list: LinkedList<TaskStruct>,
    pub blocked_list: LinkedList<TaskStruct>,
    pub pool: LinkedList<TaskStruct>,
    pub kernel_task: TaskStruct,
    pub idle_task: TaskStruct,
    /// The id the next created task receives.
    pub new_task_id: u64,
    /// Where the installed descriptor lives.
    pub current: Current,
    /// Resumption point of every fresh task: the trampoline that parses the
    /// argument string and calls the entry function.
    pub task_start: u64,
}

/// What one scheduling step does, relating the queues and the idle task
/// before the step to the scheduler and CSRs after it.  `running`,
/// `waiting`, `blocked` and `pool` are the queues going in; the decision
/// swaps the first two when the round is over, wakes expired sleepers, and
/// installs the first task owed time, or the idle task when there is none.
pub open spec fn schedule_rel(
    running: Seq<TaskStruct>,
    waiting: Seq<TaskStruct>,
    blocked: Seq<TaskStruct>,
    pool: Seq<TaskStruct>,
    idle: TaskStruct,
    now: u64,
    post: &Scheduler,
    post_csrs: &Csrs,
) -> bool {
    let r1 = if running.len() == 0 {
        waiting
    } else {
        running
    };
    let w1 = if running.len() == 0 {
        running
    } else {
        waiting
    };
    let r2 = r1 + sweep_wake(blocked, now);
    let b2 = sweep_stay(blocked, now);
    &&& (has_runnable(r2) ==> {
        let q = first_runnable(r2);
        let chosen = TaskStruct { state: TaskState::Ready, ..r2[q] };
        &&& post.running_list.view() == r2.skip(q + 1)
        &&& post.waiting_list.view() == w1.push(chosen)
        &&& post.blocked_list.view() == b2 + drained_sleepers(r2.take(q))
        &&& post.pool.view() == pool + drained_free(r2.take(q))
        &&& post.current is Node
        &&& post.spec_current_task() == chosen
        &&& post_csrs.sepc == chosen.xepc
        &&& post_csrs.sscratch == chosen.id->Some_0
        &&& post_csrs.sscratch >= 1
        &&& post_csrs.sstatus_pp() == PrivilegeMode::User.spec_code()
    })
    &&& (!has_runnable(r2) ==> {
        &&& post.running_list.view().len() == 0
        &&& post.waiting_list.view() == w1
        &&& post.blocked_list.view() == b2 + drained_sleepers(r2)
        &&& post.pool.view() == pool + drained_free(r2)
        &&& post.current == Current::Idle
        &&& post_csrs.sepc == idle.xepc
        &&& post_csrs.sscratch == 0
        &&& post_csrs.sstatus_pp() == PrivilegeMode::Supervisor.spec_code()
    })
}

/// A task owed processor time.
pub open spec fn is_runnable(t: TaskStruct) -> bool {
    t.state == TaskState::Ready || t.state == TaskState::Running
}

/// A sleeping task whose wake tick has passed becomes ready; everything
/// else is untouched.
pub open spec fn wake(t: TaskStruct, now: u64) -> TaskStruct {
    if t.sleep_until is Some && t.sleep_until->Some_0 <= now {
        TaskStruct { state: TaskState::Ready, sleep_until: None, ..t }
    } else {
        t
    }
}

/// The tasks of `s` that stay blocked after waking at tick `now`, in order.
pub open spec fn sweep_stay(s: Seq<TaskStruct>, now: u64) -> Seq<TaskStruct>
    decreases s.len(),
{
    if s.len() == 0 {
        Seq::empty()
    } else {
        let pre = sweep_stay(s.drop_last(), now);
        if wake(s.last(), now).state == TaskState::Ready {
            pre
        } else {
            pre.push(wake(s.last(), now))
        }
    }
}

/// The tasks of `s` that wake at tick `now`, in order.
pub open spec fn sweep_wake(s: Seq<TaskStruct>, now: u64) -> Seq<TaskStruct>
    decreases s.len(),
{
    if s.len() == 0 {
        Seq::empty()
    } else {
        let pre = sweep_wake(s.drop_last(), now);
        if wake(s.last(), now).state == TaskState::Ready {
            pre.push(wake(s.last(), now))
        } else {
            pre
        }
    }
}

/// Some task of `s` is owed processor time.
pub open spec fn has_runnable(s: Seq<TaskStruct>) -> bool {
    exists|i: int| 0 <= i < s.len() && is_runnable(#[trigger] s[i])
}

/// The position of the first task of `s` owed processor time.
pub open spec fn first_runnable(s: Seq<TaskStruct>) -> int
    decreases s.len(),
{
    if s.len() == 0 {
        0
    } else if is_runnable(s[0]) {
        0
    } else {
        1 + first_runnable(s.skip(1))
    }
}

/// The sleepers among the drained prefix `s`, in order: they move to the
/// blocked queue.
pub open spec fn drained_sleepers(s: Seq<TaskStruct>) -> Seq<TaskStruct>
    decreases s.len(),
{
    if s.len() == 0 {
        Seq::empty()
    } else {
        let pre = drained_sleepers(s.drop_last());
        if s.last().state == TaskState::Sleeping {
            pre.push(s.last())
        } else {
            pre
        }
    }
}

/// The retired tasks among the drained prefix `s`, in order, their state
/// cleared: they move to the pool.
pub open spec fn drained_free(s: Seq<TaskStruct>) -> Seq<TaskStruct>
    decreases s.len(),
{
    if s.len() == 0 {
        Seq::empty()
    } else {
        let pre = drained_free(s.drop_last());
        if s.last().state == TaskState::Sleeping || is_runnable(s.last()) {
            pre
        } else {
            pre.push(TaskStruct { state: TaskState::Free, ..s.last() })
        }
    }
}

/// When everything before `i` is unrunnable and `s[i]` is runnable, `i` is
/// the first runnable position.
proof fn lemma_first_runnable_at(s: Seq<TaskStruct>, i: int)
    requires
        0 <= i < s.len(),
        forall|j: int| 0 <= j < i ==> !is_runnable(#[trigger] s[j]),
        is_runnable(s[i]),
    ensures
        first_runnable(s) == i,
    decreases i,
{
    if i > 0 {
        assert(forall|j: int| 0 <= j < i - 1 ==> s.skip(1)[j] == s[j + 1]);
        lemma_first_runnable_at(s.skip(1), i - 1);
    }
}

/// Some task of `s` bears the id.
pub open spec fn id_in(s: Seq<TaskStruct>, id: u64) -> bool {
    exists|i: int| 0 <= i < s.len() && #[trigger] s[i].id == Some(id)
}

/// Waking splits the blocked queue soundly: the woken and the staying tasks
/// keep their well-formed identities, no id is duplicated or invented, and
/// the two halves share none.
proof fn lemma_sweep_wf(s: Seq<TaskStruct>, now: u64, bound: u64)
    requires
        ids_ok(s, bound),
        distinct_ids(s),
    ensures
        ids_ok(sweep_wake(s, now), bound),
        ids_ok(sweep_stay(s, now), bound),
        distinct_ids(sweep_wake(s, now)),
        distinct_ids(sweep_stay(s, now)),
        disjoint_ids(sweep_wake(s, now), sweep_stay(s, now)),
        forall|id: u64| id_in(sweep_wake(s, now), id) ==> id_in(s, id),
        forall|id: u64| id_in(sweep_stay(s, now), id) ==> id_in(s, id),
    decreases s.len(),
{
    if s.len() > 0 {
        let d = s.drop_last();
        let t = s.last();
        let w = wake(t, now);
        lemma_sweep_wf(d, now, bound);
        assert(forall|id: u64| id_in(d, id) ==> id_in(s, id)) by {
            assert(forall|i: int| 0 <= i < d.len() ==> d[i] == s[i]);
        }
        assert(w.id == t.id && id_in(s, t.id->Some_0));
        assert forall|id: u64| id_in(s, id) implies id_in(d, id) || id == t.id->Some_0 by {
            let i = choose|i: int| 0 <= i < s.len() && #[trigger] s[i].id == Some(id);
            if i < d.len() {
                assert(d[i] == s[i]);
                assert(d[i].id == Some(id));
            }
        }
        assert(!id_in(d, t.id->Some_0)) by {
            assert(forall|i: int| 0 <= i < d.len() ==> #[trigger] d[i].id->Some_0 != t.id->Some_0);
            assert(forall|i: int| 0 <= i < d.len() ==> #[trigger] d[i].id is Some);
        }
    }
}

/// Draining the unrunnable prefix splits it soundly, as waking does the
/// blocked queue.
proof fn lemma_drain_wf(s: Seq<TaskStruct>, bound: u64)
    requires
        ids_ok(s, bound),
        distinct_ids(s),
    ensures
        ids_ok(drained_sleepers(s), bound),
        ids_ok(drained_free(s), bound),
        distinct_ids(drained_sleepers(s)),
        distinct_ids(drained_free(s)),
        disjoint_ids(drained_sleepers(s), drained_free(s)),
        forall|id: u64| id_in(drained_sleepers(s), id) ==> id_in(s, id),
        forall|id: u64| id_in(drained_free(s), id) ==> id_in(s, id),
        forall|i: int|
            0 <= i < drained_sleepers(s).len() ==> #[trigger] drained_sleepers(s)[i].state
                == TaskState::Sleeping,
    decreases s.len(),
{
    if s.len() > 0 {
        let d = s.drop_last();
        let t = s.last();
        lemma_drain_wf(d, bound);
        assert(forall|id: u64| id_in(d, id) ==> id_in(s, id)) by {
            assert(forall|i: int| 0 <= i < d.len() ==> d[i] == s[i]);
        }
        assert(id_in(s, t.id->Some_0));
        assert forall|id: u64| id_in(s, id) implies id_in(d, id) || id == t.id->Some_0 by {
            let i = choose|i: int| 0 <= i < s.len() && #[trigger] s[i].id == Some(id);
            if i < d.len() {
                assert(d[i] == s[i]);
                assert(d[i].id == Some(id));
            }
        }
        assert(!id_in(d, t.id->Some_0)) by {
            assert(forall|i: int| 0 <= i < d.len() ==> #[trigger] d[i].id->Some_0 != t.id->Some_0);
            assert(forall|i: int| 0 <= i < d.len() ==> #[trigger] d[i].id is Some);
        }
    }
}

/// Nothing that stays blocked after a wake sweep is ready.
proof fn lemma_sweep_stay_no_ready(s: Seq<TaskStruct>, now: u64)
    ensures
        forall|i: int|
            0 <= i < sweep_stay(s, now).len() ==> (#[trigger] sweep_stay(s, now)[i]).state
                != TaskState::Ready,
    decreases s.len(),
{
    if s.len() > 0 {
        lemma_sweep_stay_no_ready(s.drop_last(), now);
    }
}

/// A blocked task the wake sweep does not touch stays in the blocked queue.
proof fn lemma_sweep_stay_keeps(s: Seq<TaskStruct>, now: u64, k: int)
    requires
        0 <= k < s.len(),
        wake(s[k], now) == s[k],
        s[k].state != TaskState::Ready,
    ensures
        sweep_stay(s, now).contains(s[k]),
    decreases s.len(),
{
    if k == s.len() - 1 {
        assert(sweep_stay(s, now).last() == s[k]);
    } else {
        lemma_sweep_stay_keeps(s.drop_last(), now, k);
        let pre = sweep_stay(s.drop_last(), now);
        let w = choose|w: int| 0 <= w < pre.len() && pre[w] == s.drop_last()[k];
        assert(s.drop_last()[k] == s[k]);
        assert(sweep_stay(s, now)[w] == s[k]);
    }
}

/// A blocked task whose wake tick has come is among the woken.
proof fn lemma_sweep_wake_keeps(s: Seq<TaskStruct>, now: u64, k: int)
    requires
        0 <= k < s.len(),
        wake(s[k], now).state == TaskState::Ready,
    ensures
        sweep_wake(s, now).contains(wake(s[k], now)),
    decreases s.len(),
{
    if k == s.len() - 1 {
        assert(sweep_wake(s, now).last() == wake(s[k], now));
    } else {
        lemma_sweep_wake_keeps(s.drop_last(), now, k);
        let pre = sweep_wake(s.drop_last(), now);
        let w = choose|w: int| 0 <= w < pre.len() && pre[w] == wake(s.drop_last()[k], now);
        assert(s.drop_last()[k] == s[k]);
        assert(sweep_wake(s, now)[w] == wake(s[k], now));
    }
}

/// When something is runnable, the first runnable position is a real one.
proof fn lemma_first_runnable_bounds(s: Seq<TaskStruct>)
    requires
        has_runnable(s),
    ensures
        0 <= first_runnable(s) < s.len(),
        is_runnable(s[first_runnable(s)]),
    decreases s.len(),
{
    if !is_runnable(s[0]) {
        assert(has_runnable(s.skip(1))) by {
            let i = choose|i: int| 0 <= i < s.len() && is_runnable(#[trigger] s[i]);
            assert(s.skip(1)[i - 1] == s[i]);
        }
        lemma_first_runnable_bounds(s.skip(1));
    }
}

/// Everything before the first runnable position is unrunnable.
proof fn lemma_first_runnable_prefix(s: Seq<TaskStruct>, j: int)
    requires
        0 <= j < s.len(),
        j < first_runnable(s),
    ensures
        !is_runnable(s[j]),
    decreases j,
{
    if j > 0 {
        lemma_first_runnable_prefix(s.skip(1), j - 1);
        assert(s.skip(1)[j - 1] == s[j]);
    }
}

/// A sleeper whose wake tick has come is released by the very next
/// scheduling step: woken, it stands in the running queue of the new
/// round, or is itself the task installed and parked in waiting.  Together
/// with the never-early clause of [`Scheduler::schedule`], this is the
/// step-level content of the sleep guarantee; that ticks keep arriving is
/// the hardware timer's side of the bargain.
pub proof fn lemma_expired_sleeper_released(
    running: Seq<TaskStruct>,
    waiting: Seq<TaskStruct>,
    blocked: Seq<TaskStruct>,
    pool: Seq<TaskStruct>,
    idle: TaskStruct,
    now: u64,
    post: &Scheduler,
    post_csrs: &Csrs,
    k: int,
)
    requires
        schedule_rel(running, waiting, blocked, pool, idle, now, post, post_csrs),
        0 <= k < blocked.len(),
        blocked[k].sleep_until is Some,
        blocked[k].sleep_until->Some_0 <= now,
    ensures
        post.running_list.view().contains(wake(blocked[k], now)) || post.waiting_list.view().contains(
            wake(blocked[k], now),
        ),
{
    let w = wake(blocked[k], now);
    assert(w.state == TaskState::Ready);
    lemma_sweep_wake_keeps(blocked, now, k);
    let r1 = if running.len() == 0 {
        waiting
    } else {
        running
    };
    let w1 = if running.len() == 0 {
        running
    } else {
        waiting
    };
    let ws = sweep_wake(blocked, now);
    let i = choose|i: int| 0 <= i < ws.len() && ws[i] == w;
    let r2 = r1 + ws;
    let p = r1.len() + i;
    assert(r2[p] == w);
    assert(has_runnable(r2));
    lemma_first_runnable_bounds(r2);
    let q = first_runnable(r2);
    assert(p >= q) by {
        if p < q {
            lemma_first_runnable_prefix(r2, p);
        }
    }
    if p == q {
        let chosen = TaskStruct { state: TaskState::Ready, ..r2[q] };
        assert(chosen == w);
        let wv = post.waiting_list.view();
        assert(wv[wv.len() - 1] == w);
    } else {
        assert(r2.skip(q + 1)[p - q - 1] == r2[p]);
        assert(post.running_list.view()[p - q - 1] == w);
    }
}

/// A descriptor that may sit in a scheduler queue: it has an identity and a
/// usable stack, and a sleeping task knows when to wake.
pub open spec fn task_ok(t: TaskStruct) -> bool {
    &&& t.id is Some
    &&& 1 <= t.id->Some_0
    &&& t.stack is Some
    &&& t.stack->Some_0.size >= 16
    &&& t.stack->Some_0.base % 16 == 0
    &&& t.stack->Some_0.size % 16 == 0
    &&& t.stack->Some_0.base + t.stack->Some_0.size <= u64::MAX
    &&& t.state == TaskState::Sleeping ==> t.sleep_until is Some
}

/// Every task of `s` is well-formed and has an id below `bound`.
pub open spec fn ids_ok(s: Seq<TaskStruct>, bound: u64) -> bool {
    forall|i: int| 0 <= i < s.len() ==> task_ok(#[trigger] s[i]) && s[i].id->Some_0 < bound
}

/// No two tasks of `s` share an id.
pub open spec fn distinct_ids(s: Seq<TaskStruct>) -> bool {
    forall|i: int, j: int|
        0 <= i < j < s.len() ==> #[trigger] s[i].id->Some_0 != #[trigger] s[j].id->Some_0
}

/// No task of `s1` shares an id with a task of `s2`.
pub open spec fn disjoint_ids(s1: Seq<TaskStruct>, s2: Seq<TaskStruct>) -> bool {
    forall|i: int, j: int|
        0 <= i < s1.len() && 0 <= j < s2.len() ==> #[trigger] s1[i].id->Some_0
            != #[trigger] s2[j].id->Some_0
}

impl Scheduler {
    /// The views of the four queues, in one sequence.
    pub open spec fn all_tasks(&self) -> Seq<TaskStruct> {
        self.running_list.view() + self.waiting_list.view() + self.blocked_list.view()
            + self.pool.view()
    }

    pub open spec fn wf(&self) -> bool {
        &&& self.running_list.wf()
        &&& self.waiting_list.wf()
        &&& self.blocked_list.wf()
        &&& self.pool.wf()
        &&& ids_ok(self.running_list.view(), self.new_task_id)
        &&& ids_ok(self.waiting_list.view(), self.new_task_id)
        &&& ids_ok(self.blocked_list.view(), self.new_task_id)
        &&& ids_ok(self.pool.view(), self.new_task_id)
        &&& distinct_ids(self.running_list.view())
        &&& distinct_ids(self.waiting_list.view())
        &&& distinct_ids(self.blocked_list.view())
        &&& distinct_ids(self.pool.view())
        &&& disjoint_ids(self.running_list.view(), self.waiting_list.view())
        &&& disjoint_ids(self.running_list.view(), self.blocked_list.view())
        &&& disjoint_ids(self.running_list.view(), self.pool.view())
        &&& disjoint_ids(self.waiting_list.view(), self.blocked_list.view())
        &&& disjoint_ids(self.waiting_list.view(), self.pool.view())
        &&& disjoint_ids(self.blocked_list.view(), self.pool.view())
        &&& forall|i: int|
            0 <= i < self.blocked_list.view().len() ==> (#[trigger] self.blocked_list.view()[i].state
                == TaskState::Sleeping)
        &&& self.new_task_id >= 1
        &&& self.idle_task.id is None
        &&& (self.current matches Current::Node(n) ==> self.waiting_list.linked(n as int))
    }

    /// The descriptor the CPU is executing.
    pub open spec fn spec_current_task(&self) -> TaskStruct {
        match self.current {
            Current::Idle => self.idle_task,
            Current::Node(n) => self.waiting_list.value_at(n as int),
        }
    }

    /// An empty scheduler; `init` gives it its idle task.
    pub fn new() -> (r: Self)
        ensures
            r.wf(),
            r.running_list.view() == Seq::<TaskStruct>::empty(),
            r.waiting_list.view() == Seq::<TaskStruct>::empty(),
            r.blocked_list.view() == Seq::<TaskStruct>::empty(),
            r.pool.view() == Seq::<TaskStruct>::empty(),
            r.new_task_id == 1,
            r.current == Current::Idle,
    {
        Scheduler {
            running_list: LinkedList::new(),
            waiting_list: LinkedList::new(),
            blocked_list: LinkedList::new(),
            pool: LinkedList::new(),
            kernel_task: TaskStruct::new(),
            idle_task: TaskStruct::new(),
            new_task_id: 1,
            current: Current::Idle,
            task_start: 0,
        }
    }

    /// Give the idle task its stack and resumption point, install it, and
    /// record the trampoline address for future tasks.  Fails only when the
    /// heap cannot supply the idle stack.
    pub fn init(
        &mut self,
        alloc: &mut BumpAllocator,
        csrs: &mut Csrs,
        idle_pc: u64,
        task_start_pc: u64,
    ) -> (ok: bool)
        requires
            old(self).wf(),
            old(alloc).wf(),
            old(self).all_tasks().len() == 0,
            old(self).current == Current::Idle,
        ensures
            final(self).wf(),
            final(alloc).wf(),
            ok <==> old(alloc).can_alloc(crate::task::STACK_ALLOC_SIZE),
            !ok ==> *final(csrs) == (Csrs { mscratch: 0u64, ..*old(csrs) }),
            ok ==> {
                &&& final(self).idle_task.xepc == idle_pc
                &&& final(self).idle_task.stack is Some
                &&& final(self).idle_task.stack->Some_0.size == USER_STACK_SIZE
                &&& final(self).idle_task.stack->Some_0.base % 16 == 0
                &&& ({
                    let idle = final(self).idle_task;
                    idle.sp == idle.stack->Some_0.spec_initial_sp()
                })
                &&& final(self).idle_task.sp % 16 == 0
                &&& final(self).task_start == task_start_pc
                &&& final(self).current == Current::Idle
                &&& final(self).new_task_id == 1
                &&& *final(csrs) == (Csrs {
                    mscratch: 0u64,
                    sepc: idle_pc,
                    sscratch: 0u64,
                    ..*old(csrs)
                })
                &&& final(self).running_list.view() == old(self).running_list.view()
                &&& final(self).waiting_list.view() == old(self).waiting_list.view()
                &&& final(self).blocked_list.view() == old(self).blocked_list.view()
                &&& final(self).pool.view() == old(self).pool.view()
            },
    {
        csrs.mscratch = 0;
        let stack = match Stack::new(alloc, USER_STACK_SIZE) {
            Some(s) => s,
            None => {
                return false;
            },
        };
        self.idle_task.stack = Some(stack);
        self.idle_task.sp = stack.initial_sp();
        self.idle_task.xepc = idle_pc;
        csrs.sepc = idle_pc;
        csrs.sscratch = 0;
        self.current = Current::Idle;
        self.task_start = task_start_pc;
        self.new_task_id = 1;
        true
    }

    /// Read the descriptor the CPU is executing.
    pub fn current_task(&self) -> (r: &TaskStruct)
        requires
            self.wf(),
        ensures
            *r == self.spec_current_task(),
    {
        match self.current {
            Current::Idle => &self.idle_task,
            Current::Node(n) => self.waiting_list.get(n),
        }
    }

    /// Write back the descriptor the CPU is executing, after the trap path
    /// has updated its registers and state.  Its identity must not change.
    pub fn set_current_task(&mut self, t: TaskStruct)
        requires
            old(self).wf(),
            t.id == old(self).spec_current_task().id,
            old(self).current is Node ==> task_ok(t),
        ensures
            final(self).wf(),
            final(self).spec_current_task() == t,
            final(self).current == old(self).current,
            final(self).new_task_id == old(self).new_task_id,
            final(self).task_start == old(self).task_start,
            final(self).running_list == old(self).running_list,
            final(self).blocked_list == old(self).blocked_list,
            final(self).pool == old(self).pool,
            old(self).current is Idle ==> final(self).waiting_list == old(self).waiting_list
                && final(self).idle_task == t,
            old(self).current matches Current::Node(n) ==> {
                &&& final(self).idle_task == old(self).idle_task
                &&& final(self).waiting_list.view() == old(self).waiting_list.view().update(
                    old(self).waiting_list.pos_of(n as int) - 1,
                    t,
                )
                &&& final(self).waiting_list.ring() == old(self).waiting_list.ring()
            },
    {
        match self.current {
            Current::Idle => {
                self.idle_task = t;
            },
            Current::Node(n) => {
                let ghost w0 = self.waiting_list.view();
                let ghost p = self.waiting_list.pos_of(n as int) - 1;
                proof {
                    self.waiting_list.lemma_linked_pos(n as int);
                }
                self.waiting_list.replace(n, t);
                proof {
                    assert(0 <= p < w0.len());
                    assert(forall|i: int|
                        0 <= i < w0.len() && i != p ==> #[trigger] self.waiting_list.view()[i]
                            == w0[i]);
                    assert(w0[p].id == t.id);
                }
            },
        }
    }

    /// The descriptor a fresh task starts from: `base` with its identity,
    /// state, stack pointer, resumption point and arguments filled in.
    pub open spec fn fresh_task(
        base: TaskStruct,
        id: u64,
        start_pc: u64,
        entry: u64,
        args: u64,
        len: u64,
    ) -> TaskStruct {
        TaskStruct {
            id: Some(id),
            state: TaskState::Ready,
            sp: base.stack->Some_0.spec_initial_sp() as u64,
            xepc: start_pc,
            a0: entry,
            a1: args,
            a2: len,
            ..base
        }
    }

    /// Create a task that will run `entry` with the argument bytes at
    /// `args`: recycle a pooled descriptor, or allocate a stack for a fresh
    /// one; give it the next id and enqueue it for this round.  `None` when
    /// no descriptor can be had.
    pub fn task_create(
        &mut self,
        alloc: &mut BumpAllocator,
        entry: u64,
        args: u64,
        len: u64,
    ) -> (r: Option<u64>)
        requires
            old(self).wf(),
            old(alloc).wf(),
            old(self).new_task_id < u64::MAX,
        ensures
            final(self).wf(),
            final(alloc).wf(),
            r is None <==> old(self).pool.view().len() == 0 && !old(alloc).can_alloc(
                crate::task::STACK_ALLOC_SIZE,
            ),
            r is None ==> *final(self) == *old(self) && *final(alloc) == *old(alloc),
            r is Some ==> {
                &&& r->Some_0 == old(self).new_task_id
                &&& final(self).new_task_id == old(self).new_task_id + 1
                &&& final(self).waiting_list == old(self).waiting_list
                &&& final(self).blocked_list == old(self).blocked_list
                &&& final(self).current == old(self).current
                &&& final(self).task_start == old(self).task_start
                &&& final(self).idle_task == old(self).idle_task
            },
            r is Some ==> final(self).running_list.view() == old(self).running_list.view().push(
                created_task(old(self), old(alloc), entry, args, len),
            ),
            r is Some && old(self).pool.view().len() > 0 ==> final(self).pool.view() == old(
                self,
            ).pool.view().skip(1) && *final(alloc) == *old(alloc),
            r is Some && old(self).pool.view().len() == 0 ==> final(self).pool.view() == old(
                self,
            ).pool.view() && *final(alloc) == old(alloc).alloc_next(crate::task::STACK_ALLOC_SIZE),
    {
        let mut new_task: TaskStruct;
        let pooled = !self.pool.is_empty();
        if pooled {
            new_task = match self.pool.pop_front() {
                Some(t) => t,
                None => unreached(),
            };
        } else {
            let stack = match Stack::new(alloc, USER_STACK_SIZE) {
                Some(s) => s,
                None => {
                    return None;
                },
            };
            new_task = TaskStruct::new();
            new_task.stack = Some(stack);
        }
        let id = self.new_task_id;
        new_task.state = TaskState::Ready;
        new_task.id = Some(id);
        self.new_task_id = id + 1;
        let sp = match &new_task.stack {
            Some(s) => s.initial_sp(),
            None => unreached(),
        };
        new_task.sp = sp;
        new_task.xepc = self.task_start;
        new_task.a0 = entry;
        new_task.a1 = args;
        new_task.a2 = len;
        self.running_list.push_back(new_task);
        proof {
            let r1 = self.running_list.view();
            let b = self.new_task_id;
            assert(forall|i: int|
                0 <= i < r1.len() - 1 ==> r1[i] == old(self).running_list.view()[i]);
            assert(r1[r1.len() - 1] == new_task);
            if pooled {
                let p0 = old(self).pool.view();
                assert(forall|i: int|
                    0 <= i < self.pool.view().len() ==> #[trigger] self.pool.view()[i] == p0[i
                        + 1]);
            }
        }
        Some(id)
    }

    /// Sweep the blocked queue: wake every sleeper whose tick has passed
    /// and append it to the running queue; the rest stay blocked, in order.
    fn wake_sweep(&mut self, now: u64)
        requires
            old(self).wf(),
            old(self).current == Current::Idle,
        ensures
            final(self).wf(),
            final(self).running_list.view() == old(self).running_list.view() + sweep_wake(
                old(self).blocked_list.view(),
                now,
            ),
            final(self).blocked_list.view() == sweep_stay(old(self).blocked_list.view(), now),
            final(self).waiting_list == old(self).waiting_list,
            final(self).pool == old(self).pool,
            final(self).idle_task == old(self).idle_task,
            final(self).kernel_task == old(self).kernel_task,
            final(self).new_task_id == old(self).new_task_id,
            final(self).task_start == old(self).task_start,
            final(self).current == Current::Idle,
    {
        let ghost b0 = self.blocked_list.view();
        let ghost r0 = self.running_list.view();
        let mut drained: Vec<TaskStruct> = Vec::new();
        loop
            invariant
                self.wf(),
                self.current == Current::Idle,
                drained@ + self.blocked_list.view() == b0,
                drained@ == b0.take(drained@.len() as int),
                self.running_list == old(self).running_list,
                self.waiting_list == old(self).waiting_list,
                self.pool == old(self).pool,
                self.idle_task == old(self).idle_task,
                self.kernel_task == old(self).kernel_task,
                self.new_task_id == old(self).new_task_id,
                self.task_start == old(self).task_start,
            ensures
                drained@ == b0,
                self.blocked_list.view().len() == 0,
                self.wf(),
                self.current == Current::Idle,
                self.running_list == old(self).running_list,
                self.waiting_list == old(self).waiting_list,
                self.pool == old(self).pool,
                self.idle_task == old(self).idle_task,
                self.kernel_task == old(self).kernel_task,
                self.new_task_id == old(self).new_task_id,
                self.task_start == old(self).task_start,
            decreases self.blocked_list.view().len(),
        {
            match self.blocked_list.pop_front() {
                Some(t) => {
                    drained.push(t);
                    proof {
                        assert(drained@ + self.blocked_list.view() =~= b0);
                        assert(drained@ =~= b0.take(drained@.len() as int));
                    }
                },
                None => {
                    proof {
                        assert(drained@ =~= b0);
                    }
                    break ;
                },
            }
        }
        let ghost bound = self.new_task_id;
        proof {
            lemma_sweep_wf(b0, now, bound);
        }
        let mut i: usize = 0;
        while i < drained.len()
            invariant
                self.wf(),
                self.current == Current::Idle,
                drained@ == b0,
                i <= b0.len(),
                bound == self.new_task_id,
                ids_ok(b0, bound),
                distinct_ids(b0),
                forall|k: int|
                    0 <= k < b0.len() ==> (#[trigger] b0[k].state) == TaskState::Sleeping,
                disjoint_ids(b0, old(self).running_list.view()),
                disjoint_ids(b0, old(self).waiting_list.view()),
                disjoint_ids(b0, old(self).pool.view()),
                self.running_list.view() == old(self).running_list.view() + sweep_wake(
                    b0.take(i as int),
                    now,
                ),
                self.blocked_list.view() == sweep_stay(b0.take(i as int), now),
                self.waiting_list == old(self).waiting_list,
                self.pool == old(self).pool,
                self.idle_task == old(self).idle_task,
                self.kernel_task == old(self).kernel_task,
                self.new_task_id == old(self).new_task_id,
                self.task_start == old(self).task_start,
            decreases drained@.len() - i,
        {
            let mut t = drained[i];
            proof {
                assert(t == b0[i as int]);
                assert(task_ok(t) && t.id->Some_0 < bound);
                assert(b0.take(i + 1).drop_last() =~= b0.take(i as int));
                assert(b0.take(i + 1).last() == b0[i as int]);
                lemma_sweep_wf(b0.take(i as int), now, bound);
                lemma_sweep_wf(b0.take(i + 1), now, bound);
                assert(!id_in(b0.take(i as int), t.id->Some_0)) by {
                    if id_in(b0.take(i as int), t.id->Some_0) {
                        let k = choose|k: int|
                            0 <= k < b0.take(i as int).len() && #[trigger] b0.take(
                                i as int,
                            )[k].id == Some(t.id->Some_0);
                        assert(b0[k].id == Some(t.id->Some_0));
                        assert(b0[k].id->Some_0 == b0[i as int].id->Some_0);
                        assert(false);
                    }
                }
                assert(!id_in(sweep_wake(b0.take(i as int), now), t.id->Some_0));
                assert(!id_in(sweep_stay(b0.take(i as int), now), t.id->Some_0));
            }
            let mut woke = false;
            match t.sleep_until {
                Some(su) => {
                    if now >= su {
                        t.state = TaskState::Ready;
                        t.sleep_until = None;
                        woke = true;
                    }
                },
                None => {},
            }
            proof {
                assert(t == wake(b0[i as int], now));
                assert(woke <==> wake(b0[i as int], now).state == TaskState::Ready);
            }
            if woke {
                self.running_list.push_back(t);
            } else {
                self.blocked_list.push_back(t);
            }
            proof {
                let r_new = old(self).running_list.view() + sweep_wake(b0.take(i + 1), now);
                let b_new = sweep_stay(b0.take(i + 1), now);
                if woke {
                    assert(self.running_list.view() =~= r_new);
                    assert(self.blocked_list.view() == b_new);
                } else {
                    assert(self.running_list.view() == r_new) by {
                        assert(sweep_wake(b0.take(i + 1), now) == sweep_wake(
                            b0.take(i as int),
                            now,
                        ));
                    }
                    assert(self.blocked_list.view() =~= b_new);
                }
            }
            i += 1;
        }
        proof {
            assert(b0.take(i as int) =~= b0);
        }
    }

    /// Drain the running queue from the front until a task owed time turns
    /// up: install it and move it to the waiting queue.  Sleepers drained on
    /// the way go to the blocked queue, retired slots to the pool.  When the
    /// round holds nothing runnable, install the idle task.
    fn select_install(&mut self, csrs: &mut Csrs)
        requires
            old(self).wf(),
            old(self).current == Current::Idle,
        ensures
            final(self).wf(),
            final(self).idle_task == old(self).idle_task,
            final(self).kernel_task == old(self).kernel_task,
            final(self).new_task_id == old(self).new_task_id,
            final(self).task_start == old(self).task_start,
            *final(csrs) == (Csrs {
                sepc: final(csrs).sepc,
                sscratch: final(csrs).sscratch,
                sstatus: final(csrs).sstatus,
                ..*old(csrs)
            }),
            final(csrs).sstatus & !crate::riscv::SSTATUS_SPP_MASK == old(csrs).sstatus
                & !crate::riscv::SSTATUS_SPP_MASK,
            has_runnable(old(self).running_list.view()) ==> {
                let r2 = old(self).running_list.view();
                let q = first_runnable(r2);
                let chosen = TaskStruct { state: TaskState::Ready, ..r2[q] };
                &&& final(self).running_list.view() == r2.skip(q + 1)
                &&& final(self).waiting_list.view() == old(self).waiting_list.view().push(chosen)
                &&& final(self).blocked_list.view() == old(self).blocked_list.view()
                    + drained_sleepers(r2.take(q))
                &&& final(self).pool.view() == old(self).pool.view() + drained_free(r2.take(q))
                &&& final(self).current is Node
                &&& final(self).spec_current_task() == chosen
                &&& final(csrs).sepc == chosen.xepc
                &&& final(csrs).sscratch == chosen.id->Some_0
                &&& final(csrs).sscratch >= 1
                &&& final(csrs).sstatus_pp() == PrivilegeMode::User.spec_code()
            },
            !has_runnable(old(self).running_list.view()) ==> {
                let r2 = old(self).running_list.view();
                &&& final(self).running_list.view().len() == 0
                &&& final(self).waiting_list == old(self).waiting_list
                &&& final(self).blocked_list.view() == old(self).blocked_list.view()
                    + drained_sleepers(r2)
                &&& final(self).pool.view() == old(self).pool.view() + drained_free(r2)
                &&& final(self).current == Current::Idle
                &&& final(csrs).sepc == old(self).idle_task.xepc
                &&& final(csrs).sscratch == 0
                &&& final(csrs).sstatus_pp() == PrivilegeMode::Supervisor.spec_code()
            },
    {
        let ghost r2 = self.running_list.view();
        let ghost i: int = 0;
        loop
            invariant
                self.wf(),
                self.current == Current::Idle,
                r2 == old(self).running_list.view(),
                0 <= i <= r2.len(),
                self.running_list.view() == r2.skip(i),
                forall|j: int| 0 <= j < i ==> !is_runnable(#[trigger] r2[j]),
                self.blocked_list.view() == old(self).blocked_list.view() + drained_sleepers(
                    r2.take(i),
                ),
                self.pool.view() == old(self).pool.view() + drained_free(r2.take(i)),
                self.waiting_list == old(self).waiting_list,
                self.idle_task == old(self).idle_task,
                self.kernel_task == old(self).kernel_task,
                self.new_task_id == old(self).new_task_id,
                self.task_start == old(self).task_start,
                *csrs == *old(csrs),
            ensures
                self.running_list.view().len() == 0,
                i == r2.len(),
                forall|j: int| 0 <= j < r2.len() ==> !is_runnable(#[trigger] r2[j]),
                self.blocked_list.view() == old(self).blocked_list.view() + drained_sleepers(r2),
                self.pool.view() == old(self).pool.view() + drained_free(r2),
                self.wf(),
                self.current == Current::Idle,
                self.waiting_list == old(self).waiting_list,
                self.idle_task == old(self).idle_task,
                self.kernel_task == old(self).kernel_task,
                self.new_task_id == old(self).new_task_id,
                self.task_start == old(self).task_start,
                *csrs == *old(csrs),
            decreases self.running_list.view().len(),
        {
            let mut t = match self.running_list.pop_front() {
                Some(t) => t,
                None => {
                    proof {
                        assert(r2.take(i) =~= r2);
                    }
                    break ;
                },
            };
            proof {
                assert(t == r2[i]);
                assert(r2.take(i + 1).drop_last() =~= r2.take(i));
                assert(r2.take(i + 1).last() == r2[i]);
            }
            match t.state {
                TaskState::Ready | TaskState::Running => {
                    t.state = TaskState::Ready;
                    csrs.sepc = t.xepc;
                    let tid = match t.id {
                        Some(x) => x,
                        None => unreached(),
                    };
                    csrs.sscratch = tid;
                    csrs.sstatus_set_pp(PrivilegeMode::User);
                    let n = self.waiting_list.push_back(t);
                    self.current = Current::Node(n);
                    proof {
                        lemma_first_runnable_at(r2, i);
                        assert(has_runnable(r2));
                        assert(self.waiting_list.view() == old(self).waiting_list.view().push(t));
                        assert(self.spec_current_task() == t);
                    }
                    return ;
                },
                TaskState::Sleeping => {
                    self.blocked_list.push_back(t);
                    proof {
                        assert(self.blocked_list.view() =~= old(self).blocked_list.view()
                            + drained_sleepers(r2.take(i + 1)));
                        assert(self.pool.view() == old(self).pool.view() + drained_free(
                            r2.take(i + 1),
                        ));
                    }
                },
                _ => {
                    t.state = TaskState::Free;
                    self.pool.push_back(t);
                    proof {
                        assert(self.pool.view() =~= old(self).pool.view() + drained_free(
                            r2.take(i + 1),
                        ));
                        assert(self.blocked_list.view() == old(self).blocked_list.view()
                            + drained_sleepers(r2.take(i + 1)));
                    }
                },
            }
            proof {
                i = i + 1;
            }
        }
        csrs.sepc = self.idle_task.xepc;
        csrs.sscratch = 0;
        csrs.sstatus_set_pp(PrivilegeMode::Supervisor);
        self.current = Current::Idle;
    }

    /// One scheduling decision, run on every supervisor software interrupt
    /// and after every environment call.  When the round is over, the
    /// running and waiting queues swap; expired sleepers wake and join this
    /// round; the first task owed time is installed and parked in the
    /// waiting queue, the idle task standing in when there is none.
    ///
    /// Two of the clauses below state global laws of the scheduler.  The
    /// idle task is installed (`sscratch` zero) exactly when, at a round
    /// boundary, no task anywhere is ready.  And a sleeping task whose wake
    /// tick has not come stays in the blocked queue untouched: it is never
    /// moved toward the processor early.
    pub fn schedule(&mut self, csrs: &mut Csrs, now: u64)
        requires
            old(self).wf(),
        ensures
            final(self).wf(),
            final(self).idle_task == old(self).idle_task,
            final(self).kernel_task == old(self).kernel_task,
            final(self).new_task_id == old(self).new_task_id,
            final(self).task_start == old(self).task_start,
            *final(csrs) == (Csrs {
                sepc: final(csrs).sepc,
                sscratch: final(csrs).sscratch,
                sstatus: final(csrs).sstatus,
                ..*old(csrs)
            }),
            final(csrs).sstatus & !crate::riscv::SSTATUS_SPP_MASK == old(csrs).sstatus
                & !crate::riscv::SSTATUS_SPP_MASK,
            schedule_rel(
                old(self).running_list.view(),
                old(self).waiting_list.view(),
                old(self).blocked_list.view(),
                old(self).pool.view(),
                old(self).idle_task,
                now,
                final(self),
                final(csrs),
            ),
            ({
                let b0 = old(self).blocked_list.view();
                forall|k: int|
                    0 <= k < b0.len() && (#[trigger] b0[k]).sleep_until is Some && now
                        < b0[k].sleep_until->Some_0 ==> final(self).blocked_list.view().contains(
                        b0[k],
                    )
            }),
            ({
                let live = final(self).all_tasks().len() - final(self).pool.view().len();
                old(self).waiting_list.view().len() == 0 ==> (final(csrs).sscratch == 0 <==> (
                forall|k: int|
                    0 <= k < live ==> (#[trigger] final(self).all_tasks()[k]).state
                        != TaskState::Ready))
            }),
    {
        let ghost s0 = *old(self);
        self.current = Current::Idle;
        if self.running_list.is_empty() {
            core::mem::swap(&mut self.running_list, &mut self.waiting_list);
        }
        let ghost r1 = self.running_list.view();
        let ghost w1 = self.waiting_list.view();
        let ghost b0 = self.blocked_list.view();
        proof {
            assert(r1 == Self::round_queue(&s0));
            assert(w1 == Self::served_queue(&s0));
            assert(b0 == s0.blocked_list.view());
        }
        self.wake_sweep(now);
        let ghost r2 = self.running_list.view();
        proof {
            assert(r2 == r1 + sweep_wake(b0, now));
            assert(self.blocked_list.view() == sweep_stay(b0, now));
        }
        self.select_install(csrs);
        proof {
            let b2 = sweep_stay(b0, now);
            // A sleeper whose tick has not come is untouched by the sweep
            // and stays blocked.
            assert forall|k: int|
                0 <= k < b0.len() && (#[trigger] b0[k]).sleep_until is Some && now
                    < b0[k].sleep_until->Some_0 implies self.blocked_list.view().contains(
                b0[k],
            ) by {
                assert(wake(b0[k], now) == b0[k]);
                assert(b0[k].state == TaskState::Sleeping);
                lemma_sweep_stay_keeps(b0, now, k);
                let w = choose|w: int| 0 <= w < b2.len() && b2[w] == b0[k];
                assert(self.blocked_list.view()[w] == b0[k]);
            }
            // At a round boundary the idle task is installed exactly when
            // nothing anywhere is ready.
            if s0.waiting_list.view().len() == 0 {
                lemma_sweep_stay_no_ready(b0, now);
                lemma_drain_wf(r2, self.new_task_id);
                let live = self.all_tasks().len() - self.pool.view().len();
                assert(self.all_tasks().len() == self.running_list.view().len()
                    + self.waiting_list.view().len() + self.blocked_list.view().len()
                    + self.pool.view().len());
                assert(forall|k: int|
                    0 <= k < live ==> #[trigger] self.all_tasks()[k] == if k
                        < self.running_list.view().len() {
                        self.running_list.view()[k]
                    } else if k < self.running_list.view().len()
                        + self.waiting_list.view().len() {
                        self.waiting_list.view()[k - self.running_list.view().len()]
                    } else {
                        self.blocked_list.view()[k - self.running_list.view().len()
                            - self.waiting_list.view().len()]
                    });
                if has_runnable(r2) {
                    let q = first_runnable(r2);
                    let chosen = TaskStruct { state: TaskState::Ready, ..r2[q] };
                    assert(csrs.sscratch >= 1);
                    let wpos = self.running_list.view().len() + self.waiting_list.view().len()
                        - 1;
                    assert(self.all_tasks()[wpos] == chosen);
                    assert(chosen.state == TaskState::Ready);
                } else {
                    assert(w1.len() == 0);
                    assert forall|k: int| 0 <= k < live implies (
                    #[trigger] self.all_tasks()[k]).state != TaskState::Ready by {
                        if k >= self.running_list.view().len() + self.waiting_list.view().len() {
                            let j = k - self.running_list.view().len()
                                - self.waiting_list.view().len();
                            if j < b2.len() {
                                assert(self.blocked_list.view()[j] == b2[j]);
                            } else {
                                assert(self.blocked_list.view()[j] == drained_sleepers(r2)[j
                                    - b2.len()]);
                            }
                        }
                    }
                }
            }
        }
    }

    /// The queue this round serves: `running`, or `waiting` when the round
    /// just ended.
    pub open spec fn round_queue(s: &Scheduler) -> Seq<TaskStruct> {
        if s.running_list.view().len() == 0 {
            s.waiting_list.view()
        } else {
            s.running_list.view()
        }
    }

    /// The waiting queue after the trap path marks the executing task
    /// ready; untouched when the idle task was executing.
    pub open spec fn marked_waiting(s: &Scheduler) -> Seq<TaskStruct> {
        match s.current {
            Current::Idle => s.waiting_list.view(),
            Current::Node(n) => s.waiting_list.view().update(
                s.waiting_list.pos_of(n as int) - 1,
                TaskStruct { state: TaskState::Ready, ..s.waiting_list.value_at(n as int) },
            ),
        }
    }

    /// The idle task after the trap path marks the executing task ready.
    pub open spec fn marked_idle(s: &Scheduler) -> TaskStruct {
        match s.current {
            Current::Idle => TaskStruct { state: TaskState::Ready, ..s.idle_task },
            Current::Node(_) => s.idle_task,
        }
    }

    /// The queue holding the tasks already served when the decision is
    /// made.
    pub open spec fn served_queue(s: &Scheduler) -> Seq<TaskStruct> {
        if s.running_list.view().len() == 0 {
            s.running_list.view()
        } else {
            s.waiting_list.view()
        }
    }

    /// The state of the task with this id, as `wait` observes it: a task
    /// found in the blocked queue reports `Sleeping`; one in the waiting or
    /// running queue reports its recorded state; an id found nowhere —
    /// retired, pooled, or never issued — reports `Free`.
    pub fn get_task_state(&self, id: u64) -> (r: TaskState)
        requires
            self.wf(),
        ensures
            r == observed_state(self, id),
    {
        match find_state_in(&self.blocked_list, id) {
            Some(_) => {
                return TaskState::Sleeping;
            },
            None => {},
        }
        match find_state_in(&self.waiting_list, id) {
            Some(st) => {
                return st;
            },
            None => {},
        }
        match find_state_in(&self.running_list, id) {
            Some(st) => {
                return st;
            },
            None => {},
        }
        TaskState::Free
    }
}

/// The position of the task of `s` bearing the id.
pub open spec fn idx_of_id(s: Seq<TaskStruct>, id: u64) -> int {
    choose|i: int| 0 <= i < s.len() && #[trigger] s[i].id == Some(id)
}

/// The state [`Scheduler::get_task_state`] reports for this id: `Sleeping`
/// for anything in the blocked queue, the recorded state for a task in the
/// waiting or running queue, and `Free` for an id found in neither.
pub open spec fn observed_state(s: &Scheduler, id: u64) -> TaskState {
    if id_in(s.blocked_list.view(), id) {
        TaskState::Sleeping
    } else if id_in(s.waiting_list.view(), id) {
        s.waiting_list.view()[idx_of_id(s.waiting_list.view(), id)].state
    } else if id_in(s.running_list.view(), id) {
        s.running_list.view()[idx_of_id(s.running_list.view(), id)].state
    } else {
        TaskState::Free
    }
}

/// Scan one queue for the task with this id and report its state.
fn find_state_in(list: &LinkedList<TaskStruct>, id: u64) -> (r: Option<TaskState>)
    requires
        list.wf(),
        distinct_ids(list.view()),
        forall|i: int| 0 <= i < list.view().len() ==> (#[trigger] list.view()[i]).id is Some,
    ensures
        r is Some <==> id_in(list.view(), id),
        r is Some ==> r->Some_0 == list.view()[idx_of_id(list.view(), id)].state,
{
    let mut it = list.iter();
    loop
        invariant
            list.wf(),
            distinct_ids(list.view()),
            forall|i: int| 0 <= i < list.view().len() ==> (#[trigger] list.view()[i]).id is Some,
            it.valid_for(list),
            1 <= it.pos(list) <= list.ring().len(),
            list.ring().len() == list.view().len() + 1,
            forall|j: int| 0 <= j < it.pos(list) - 1 ==> (#[trigger] list.view()[j]).id != Some(id),
        decreases list.ring().len() - it.pos(list),
    {
        let ghost p = it.pos(list);
        match it.next(list) {
            Some(nid) => {
                let t = list.get(nid);
                match t.id {
                    Some(tid) => {
                        if tid == id {
                            proof {
                                assert(list.view()[p - 1].id == Some(id));
                                let w = idx_of_id(list.view(), id);
                                assert(list.view()[w].id == Some(id));
                                assert(w == p - 1);
                            }
                            return Some(t.state);
                        }
                    },
                    None => {},
                }
                proof {
                    assert(list.view()[p - 1].id != Some(id));
                }
            },
            None => {
                proof {
                    assert(p == list.ring().len());
                    if id_in(list.view(), id) {
                        let w = choose|w: int|
                            0 <= w < list.view().len() && #[trigger] list.view()[w].id == Some(id);
                        assert(false);
                    }
                }
                return None;
            },
        }
    }
}

/// A live task sits in exactly one place: no id appears at two positions of
/// the four queues put side by side.  Tasks exist only inside the queues,
/// so the descriptor bearing an id is in exactly one of them.
pub proof fn lemma_queue_partition(s: &Scheduler, i: int, j: int)
    requires
        s.wf(),
        0 <= i < s.all_tasks().len(),
        0 <= j < s.all_tasks().len(),
        s.all_tasks()[i].id == s.all_tasks()[j].id,
    ensures
        i == j,
{
    let r = s.running_list.view();
    let w = s.waiting_list.view();
    let b = s.blocked_list.view();
    let p = s.pool.view();
    let all = s.all_tasks();
    assert(forall|k: int|
        0 <= k < all.len() ==> #[trigger] all[k] == if k < r.len() {
            r[k]
        } else if k < r.len() + w.len() {
            w[k - r.len()]
        } else if k < r.len() + w.len() + b.len() {
            b[k - r.len() - w.len()]
        } else {
            p[k - r.len() - w.len() - b.len()]
        });
    if i != j {
        assert(all[i].id->Some_0 == all[j].id->Some_0);
        assert(false);
    }
}

} // verus!
