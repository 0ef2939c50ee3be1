//! Reference-counted heap cells.
//!
//! The kernel has no memory reclamation, so cells live in an arena that only
//! grows: a handle is an index into the arena, sharing a cell raises its
//! count, releasing a handle lowers it, and the transition from one to zero
//! destroys the value.  The arena stands for the bump-allocated heap; handle
//! equality on indices stands for pointer equality.

use vstd::prelude::*;

verus! {

/// One reference-counted cell: a count and, while the count is positive,
/// the owned value.
struct RcCell<T> {
    ref_cnt: u64,
    value: Option<T>,
}

/// The arena all cells live in.
pub struct RcHeap<T> {
    cells: Vec<RcCell<T>>,
}

/// A shared handle to one cell of an [`RcHeap`].
pub struct Arc<T> {
    idx: usize,
    _value: core::marker::PhantomData<T>,
}

impl<T> Arc<T> {
    /// The cell this handle designates.
    pub closed spec fn id(&self) -> int {
        self.idx as int
    }

    /// Two handles are the same exactly when they designate the same cell.
    pub fn ptr_eq(a1: &Arc<T>, a2: &Arc<T>) -> (r: bool)
        ensures
            r <==> a1.id() == a2.id(),
    {
        a1.idx == a2.idx
    }
}

impl<T> RcHeap<T> {
    /// Cells either hold a value and a positive count, or are dead.
    pub closed spec fn wf(&self) -> bool {
        forall|i: int|
            0 <= i < self.cells@.len() ==> ((#[trigger] self.cells@[i].ref_cnt >= 1)
                <==> self.cells@[i].value is Some)
    }

    pub closed spec fn len(&self) -> int {
        self.cells@.len() as int
    }

    /// The handle designates a cell that is still alive.
    pub closed spec fn valid(&self, h: &Arc<T>) -> bool {
        0 <= h.id() < self.len() && self.cells@[h.id()].ref_cnt >= 1
    }

    pub closed spec fn count(&self, h: &Arc<T>) -> u64 {
        self.cells@[h.id()].ref_cnt
    }

    pub closed spec fn value_of(&self, h: &Arc<T>) -> T {
        self.cells@[h.id()].value->Some_0
    }

    /// All cells of `other` but the one behind `h` are as they were.
    pub open spec fn others_unchanged(&self, other: &Self, h: &Arc<T>) -> bool {
        forall|g: Arc<T>|
            #![trigger other.valid(&g)]
            #![trigger other.count(&g)]
            0 <= g.id() < other.len() && g.id() != h.id() ==> (self.valid(&g) == other.valid(&g)
                && self.count(&g) == other.count(&g) && (self.valid(&g) ==> self.value_of(&g)
                == other.value_of(&g)))
    }

    pub fn new_heap() -> (r: Self)
        ensures
            r.wf(),
            r.len() == 0,
    {
        RcHeap { cells: Vec::new() }
    }

    /// Allocate a fresh cell owning `value`, with a count of one.
    pub fn new(&mut self, value: T) -> (h: Arc<T>)
        requires
            old(self).wf(),
        ensures
            final(self).wf(),
            final(self).valid(&h),
            final(self).count(&h) == 1,
            final(self).value_of(&h) == value,
            h.id() == old(self).len(),
            final(self).len() == old(self).len() + 1,
            final(self).others_unchanged(old(self), &h),
    {
        let idx = self.cells.len();
        self.cells.push(RcCell { ref_cnt: 1, value: Some(value) });
        Arc { idx, _value: core::marker::PhantomData }
    }

    /// Share the cell behind `h`: a second handle to the same cell, with the
    /// count raised by one.
    pub fn clone(&mut self, h: &Arc<T>) -> (h2: Arc<T>)
        requires
            old(self).wf(),
            old(self).valid(h),
            old(self).count(h) < u64::MAX,
        ensures
            final(self).wf(),
            h2.id() == h.id(),
            final(self).valid(h),
            final(self).valid(&h2),
            final(self).count(h) == old(self).count(h) + 1,
            final(self).count(&h2) == old(self).count(h) + 1,
            final(self).value_of(h) == old(self).value_of(h),
            final(self).value_of(&h2) == old(self).value_of(h),
            final(self).len() == old(self).len(),
            final(self).others_unchanged(old(self), h),
    {
        let idx = h.idx;
        let cnt = self.cells[idx].ref_cnt;
        self.cells[idx].ref_cnt = cnt + 1;
        Arc { idx, _value: core::marker::PhantomData }
    }

    /// Read the value behind a live handle.
    pub fn get_ref(&self, h: &Arc<T>) -> (r: &T)
        requires
            self.wf(),
            self.valid(h),
        ensures
            *r == self.value_of(h),
    {
        match &self.cells[h.idx].value {
            Some(v) => v,
            None => unreached(),
        }
    }

    /// Give up a handle: the count drops by one, and on the transition from
    /// one to zero the value is destroyed.  Returns whether this release
    /// freed the cell.
    pub fn release(&mut self, h: Arc<T>) -> (freed: bool)
        requires
            old(self).wf(),
            old(self).valid(&h),
        ensures
            final(self).wf(),
            freed <==> old(self).count(&h) == 1,
            final(self).count(&h) == old(self).count(&h) - 1,
            !freed ==> final(self).valid(&h) && final(self).value_of(&h) == old(self).value_of(
                &h,
            ),
            freed ==> !final(self).valid(&h),
            final(self).len() == old(self).len(),
            final(self).others_unchanged(old(self), &h),
    {
        let idx = h.idx;
        let cnt = self.cells[idx].ref_cnt;
        self.cells[idx].ref_cnt = cnt - 1;
        if cnt == 1 {
            self.cells[idx].value = None;
            true
        } else {
            false
        }
    }
}

/// A history of operations on one cell after its allocation: `true` is a
/// clone, `false` is a release.
pub open spec fn cnt_after(ops: Seq<bool>) -> int
    decreases ops.len(),
{
    if ops.len() == 0 {
        1
    } else if ops.last() {
        cnt_after(ops.drop_last()) + 1
    } else {
        cnt_after(ops.drop_last()) - 1
    }
}

/// Every operation in the history acts on a live cell: some handle still
/// exists when it runs.
pub open spec fn trace_valid(ops: Seq<bool>) -> bool {
    forall|i: int| 0 <= i < ops.len() ==> cnt_after(#[trigger] ops.take(i)) >= 1
}

/// How many releases in the history freed the cell: those that ran with a
/// count of exactly one.
pub open spec fn frees(ops: Seq<bool>) -> int
    decreases ops.len(),
{
    if ops.len() == 0 {
        0
    } else if !ops.last() && cnt_after(ops.drop_last()) == 1 {
        frees(ops.drop_last()) + 1
    } else {
        frees(ops.drop_last())
    }
}

pub open spec fn n_clones(ops: Seq<bool>) -> int
    decreases ops.len(),
{
    if ops.len() == 0 {
        0
    } else {
        n_clones(ops.drop_last()) + if ops.last() {
            1int
        } else {
            0int
        }
    }
}

pub open spec fn n_releases(ops: Seq<bool>) -> int
    decreases ops.len(),
{
    if ops.len() == 0 {
        0
    } else {
        n_releases(ops.drop_last()) + if ops.last() {
            0int
        } else {
            1int
        }
    }
}

/// The count is one plus clones so far minus releases so far.
proof fn lemma_cnt_counts(ops: Seq<bool>)
    ensures
        cnt_after(ops) == 1 + n_clones(ops) - n_releases(ops),
    decreases ops.len(),
{
    if ops.len() > 0 {
        lemma_cnt_counts(ops.drop_last());
    }
}

/// While a valid history leaves the count positive nothing has been freed,
/// and once it reaches zero the cell has been freed exactly once.
proof fn lemma_frees_of_valid(ops: Seq<bool>)
    requires
        trace_valid(ops),
    ensures
        cnt_after(ops) >= 0,
        frees(ops) == if cnt_after(ops) >= 1 {
            0int
        } else {
            1int
        },
    decreases ops.len(),
{
    if ops.len() > 0 {
        let d = ops.drop_last();
        assert(forall|i: int| 0 <= i < d.len() ==> ops.take(i) =~= d.take(i));
        lemma_frees_of_valid(d);
        assert(ops.take(ops.len() - 1) =~= d);
        assert(cnt_after(d) >= 1);
    }
}

/// Sharing a cell `n` times and releasing all `n + 1` handles, in any order
/// in which each operation still holds a handle, frees the cell exactly
/// once.
pub proof fn lemma_arc_freed_exactly_once(ops: Seq<bool>)
    requires
        trace_valid(ops),
        n_releases(ops) == n_clones(ops) + 1,
    ensures
        frees(ops) == 1,
{
    lemma_cnt_counts(ops);
    lemma_frees_of_valid(ops);
}

} // verus!
