//! Locks: a busy spin variant, a yielding variant, and a data-carrying
//! mutex over either.
//!
//! The kernel runs on one hart, so a lock is free whenever no execution
//! context between acquire and release holds it; acquiring is modelled as
//! requiring the lock to be free.  The spin variant busy-waits on the real
//! machine and is the one taken from interrupt context; the yielding variant
//! gives up the processor on contention and is the one taken from task
//! context.

use vstd::prelude::*;

verus! {

/// Basic locking interface.
pub trait Lock: Sized {
    /// Whether the lock is currently held.
    spec fn locked(&self) -> bool;

    /// Acquire the lock.
    fn lock(&mut self)
        requires
            !old(self).locked(),
        ensures
            final(self).locked(),
    ;

    /// Release the lock.
    fn unlock(&mut self)
        ensures
            !final(self).locked(),
    ;
}

/// Busy-wait lock, safe to take from interrupt context.
pub struct SpinLock {
    held: bool,
}

impl SpinLock {
    pub fn new() -> (r: Self)
        ensures
            !r.locked(),
    {
        SpinLock { held: false }
    }
}

impl Lock for SpinLock {
    closed spec fn locked(&self) -> bool {
        self.held
    }

    fn lock(&mut self) {
        self.held = true;
    }

    fn unlock(&mut self) {
        self.held = false;
    }
}

/// Lock that yields the processor when acquisition fails, for task-context
/// code paths.  It must not be held across the yielding point itself:
/// acquisition is the only point that gives up the processor.
pub struct YieldLock {
    held: bool,
}

impl YieldLock {
    pub fn new() -> (r: Self)
        ensures
            !r.locked(),
    {
        YieldLock { held: false }
    }
}

impl Lock for YieldLock {
    closed spec fn locked(&self) -> bool {
        self.held
    }

    fn lock(&mut self) {
        self.held = true;
    }

    fn unlock(&mut self) {
        self.held = false;
    }
}

/// Exclusive access to the data while the mutex is held.  Dropping the
/// guard back into [`Mutex::unlock`] releases the lock.
pub struct MutexGuard<T> {
    /// The protected data, owned for the duration of the critical section.
    pub value: T,
}

/// Data protected by a lock: the value can only be reached by acquiring the
/// lock, which hands it out inside a guard.
pub struct Mutex<T, L: Lock> {
    lock: L,
    data: Option<T>,
}

impl<T, L: Lock> Mutex<T, L> {
    /// The mutex is held exactly while the data is out in a guard.
    pub closed spec fn locked(&self) -> bool {
        self.lock.locked()
    }

    pub closed spec fn wf(&self) -> bool {
        self.data is Some <==> !self.lock.locked()
    }

    /// The protected value, while no guard is out.
    pub closed spec fn value(&self) -> T {
        self.data->Some_0
    }

    pub fn new(lock: L, value: T) -> (r: Self)
        requires
            !lock.locked(),
        ensures
            r.wf(),
            !r.locked(),
            r.value() == value,
    {
        Mutex { lock, data: Some(value) }
    }

    /// Acquire the lock and take the data into a guard.
    pub fn lock(&mut self) -> (guard: MutexGuard<T>)
        requires
            old(self).wf(),
            !old(self).locked(),
        ensures
            final(self).wf(),
            final(self).locked(),
            guard.value == old(self).value(),
    {
        self.lock.lock();
        match self.data.take() {
            Some(value) => MutexGuard { value },
            None => unreached(),
        }
    }

    /// Put the data back and release the lock.
    pub fn unlock(&mut self, guard: MutexGuard<T>)
        requires
            old(self).wf(),
            old(self).locked(),
        ensures
            final(self).wf(),
            !final(self).locked(),
            final(self).value() == guard.value,
    {
        self.data = Some(guard.value);
        self.lock.unlock();
    }
}

} // verus!
