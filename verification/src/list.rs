//! Circular doubly-linked list with a permanent sentinel head.
//!
//! Nodes live in an arena and are addressed by index, so the two ownership
//! edges of every node are plain numbers and the ring forms no
//! reference-counting cycle.  Matching the kernel's allocator, the arena
//! only grows: an unlinked node stays behind as a free husk.  Node zero is
//! the sentinel; it carries no value, and the list is empty exactly when
//! the sentinel points at itself.
//!
//! The ghost `ring` sequence lists the node indices around the circle,
//! sentinel first; every operation is specified against it and against the
//! sequence of values it spells out.

use vstd::prelude::*;

verus! {

/// One node of the ring: its value and the indices of its two neighbours.
pub struct ListNode<T> {
    value: Option<T>,
    prev: usize,
    next: usize,
    /// Whether the node is currently linked into the ring.
    linked: bool,
}

/// The ring: an arena of nodes, the ghost order of the linked ones.
pub struct LinkedList<T> {
    nodes: Vec<ListNode<T>>,
    ring: Ghost<Seq<int>>,
}

/// A cursor over a [`LinkedList`], yielding node ids front to back.
pub struct LinkedListIter {
    current: usize,
}

/// For a ring of length `m`: reducing an index that is already in range
/// is the identity, and reducing one that overshot by less than a full turn
/// subtracts one turn.
proof fn lemma_mod_ring(m: int)
    requires
        m > 0,
    ensures
        forall|x: int| 0 <= x < m ==> #[trigger] (x % m) == x,
        forall|x: int| m <= x < m + m ==> #[trigger] (x % m) == x - m,
{
    assert forall|x: int| 0 <= x < m implies #[trigger] (x % m) == x by {
        assert(x % m == x) by (nonlinear_arith)
            requires
                0 <= x < m,
        ;
    }
    assert forall|x: int| m <= x < m + m implies #[trigger] (x % m) == x - m by {
        assert(x % m == x - m) by (nonlinear_arith)
            requires
                m <= x < m + m,
        ;
    }
}

impl<T> LinkedList<T> {
    /// The node indices around the circle, starting at the sentinel.
    pub closed spec fn ring(&self) -> Seq<int> {
        self.ring@
    }

    /// The values around the circle, front to back.
    pub closed spec fn view(&self) -> Seq<T> {
        Seq::new((self.ring@.len() - 1) as nat, |i: int| self.nodes@[self.ring@[i + 1]].value->Some_0)
    }

    /// The number of arena slots, linked or not.
    pub closed spec fn arena_len(&self) -> int {
        self.nodes@.len() as int
    }

    /// The position of node `id` around the circle; the sentinel is at 0.
    pub closed spec fn pos_of(&self, id: int) -> int {
        self.ring@.index_of(id)
    }

    /// Node `id` is linked in, and is not the sentinel.
    pub closed spec fn linked(&self, id: int) -> bool {
        &&& 0 < id < self.nodes@.len()
        &&& self.nodes@[id].linked
    }

    /// The value node `id` carries.
    pub closed spec fn value_at(&self, id: int) -> T {
        self.nodes@[id].value->Some_0
    }

    pub closed spec fn wf(&self) -> bool {
        let ring = self.ring@;
        let nodes = self.nodes@;
        &&& nodes.len() >= 1
        &&& ring.len() >= 1
        &&& ring[0] == 0
        &&& forall|i: int| 0 <= i < ring.len() ==> 0 <= #[trigger] ring[i] < nodes.len()
        &&& forall|i: int, j: int| 0 <= i < j < ring.len() ==> ring[i] != ring[j]
        &&& forall|i: int|
            0 <= i < ring.len() ==> #[trigger] nodes[ring[i]].next == ring[(i + 1) % (
            ring.len() as int)]
        &&& forall|i: int|
            0 <= i < ring.len() ==> #[trigger] nodes[ring[i]].prev == ring[(i - 1 + ring.len()) % (
            ring.len() as int)]
        &&& forall|k: int| 0 <= k < nodes.len() ==> (#[trigger] nodes[k].linked <==> ring.contains(k))
        &&& nodes[0].value is None
        &&& forall|i: int| 1 <= i < ring.len() ==> #[trigger] nodes[ring[i]].value is Some
    }

    /// A fresh ring: just the sentinel, pointing at itself.
    pub fn new() -> (r: Self)
        ensures
            r.wf(),
            r.view() == Seq::<T>::empty(),
            r.ring() == seq![0int],
    {
        let mut nodes: Vec<ListNode<T>> = Vec::new();
        nodes.push(ListNode { value: None, prev: 0, next: 0, linked: true });
        let ghost g: Seq<int> = seq![0int];
        let r = LinkedList { nodes, ring: Ghost(g) };
        proof {
            assert(r.view() =~= Seq::<T>::empty());
            assert forall|k: int| 0 <= k < r.nodes@.len() implies (#[trigger] r.nodes@[k].linked
                <==> r.ring@.contains(k)) by {
                assert(r.ring@[0] == 0);
            }
        }
        r
    }

    /// The list is empty exactly when the sentinel's successor is itself.
    pub fn is_empty(&self) -> (r: bool)
        requires
            self.wf(),
        ensures
            r <==> self.view().len() == 0,
    {
        proof {
            lemma_mod_ring(self.ring@.len() as int);
            if self.ring@.len() == 1 {
                assert(self.nodes@[0].next == self.ring@[(0int + 1) % 1]);
            } else {
                assert(self.nodes@[0].next == self.ring@[(0int + 1) % (self.ring@.len() as int)]);
                assert(self.ring@[1] != self.ring@[0]);
            }
        }
        self.nodes[0].next == 0
    }

    /// Append `value` at the back of the ring, just before the sentinel;
    /// the new node's id is returned.
    pub fn push_back(&mut self, value: T) -> (id: usize)
        requires
            old(self).wf(),
        ensures
            final(self).wf(),
            final(self).view() == old(self).view().push(value),
            final(self).ring() == old(self).ring().push(id as int),
            final(self).linked(id as int),
            final(self).value_at(id as int) == value,
            id as int == old(self).arena_len(),
            final(self).arena_len() == old(self).arena_len() + 1,
    {
        let ghost r0 = self.ring@;
        let ghost n0 = self.nodes@;
        let id = self.nodes.len();
        let last = self.nodes[0].prev;
        proof {
            let len = r0.len() as int;
            lemma_mod_ring(len);
            assert(n0[r0[0]].prev == r0[(0int - 1 + len) % len]);
            assert((0int - 1 + len) % len == len - 1);
            assert(last as int == r0[len - 1]);
        }
        self.nodes.push(ListNode { value: Some(value), prev: last, next: 0, linked: true });
        self.nodes[last].next = id;
        self.nodes[0].prev = id;
        proof {
            self.ring@ = r0.push(id as int);
            let r1 = self.ring@;
            let n1 = self.nodes@;
            let len = r0.len() as int;
            lemma_mod_ring(len);
            lemma_mod_ring(len + 1);
            assert(forall|i: int| 0 <= i < len ==> r1[i] == r0[i]);
            assert(r1[len] == id as int);
            // Every old index is strictly below the new one.
            assert(forall|i: int| 0 <= i < len ==> #[trigger] r0[i] < id as int);
            // Each old node other than the sentinel and the old last keeps
            // its links; the new links close the circle.
            assert forall|i: int| 0 <= i < r1.len() implies #[trigger] n1[r1[i]].next == r1[(i + 1)
                % (r1.len() as int)] by {
                if i == len - 1 {
                    assert(n1[r1[i]].next == id);
                } else if i == len {
                    assert(n1[id as int].next == 0);
                } else {
                    assert(r0[i] != r0[len - 1]);
                    assert(n1[r1[i]].next == n0[r0[i]].next);
                    assert((i + 1) % (r1.len() as int) == i + 1);
                    assert((i + 1) % len == i + 1);
                }
            }
            assert forall|i: int| 0 <= i < r1.len() implies #[trigger] n1[r1[i]].prev == r1[(i - 1
                + r1.len()) % (r1.len() as int)] by {
                if i == 0 {
                    assert(n1[0].prev == id);
                    assert((0int - 1 + r1.len()) % (r1.len() as int) == len);
                } else if i == len {
                    assert(n1[id as int].prev == last);
                    assert((i - 1 + r1.len()) % (r1.len() as int) == len - 1);
                } else {
                    assert(r0[i] != 0);
                    assert(n1[r1[i]].prev == n0[r0[i]].prev);
                    assert((i - 1 + r1.len()) % (r1.len() as int) == i - 1);
                    assert((i - 1 + len) % len == i - 1);
                }
            }
            assert forall|k: int| 0 <= k < n1.len() implies (#[trigger] n1[k].linked
                <==> r1.contains(k)) by {
                if k == id as int {
                    assert(r1[len] == k);
                } else {
                    if n1[k].linked {
                        let w = choose|w: int| 0 <= w < r0.len() && r0[w] == k;
                        assert(r1[w] == k);
                    }
                    if r1.contains(k) {
                        let w = choose|w: int| 0 <= w < r1.len() && r1[w] == k;
                        assert(r0[w] == k);
                    }
                }
            }
            assert(final(self).view() =~= old(self).view().push(value));
        }
        id
    }

    /// Insert `value` at the front of the ring, just after the sentinel.
    pub fn push_front(&mut self, value: T) -> (id: usize)
        requires
            old(self).wf(),
        ensures
            final(self).wf(),
            final(self).view() == seq![value] + old(self).view(),
            final(self).ring() == seq![0int, id as int] + old(self).ring().skip(1),
            final(self).linked(id as int),
            final(self).value_at(id as int) == value,
            id as int == old(self).arena_len(),
            final(self).arena_len() == old(self).arena_len() + 1,
    {
        let ghost r0 = self.ring@;
        let ghost n0 = self.nodes@;
        let id = self.nodes.len();
        let first = self.nodes[0].next;
        proof {
            let len = r0.len() as int;
            lemma_mod_ring(len);
            assert(n0[r0[0]].next == r0[(0int + 1) % len]);
            if len == 1 {
                assert(first as int == r0[0]);
            } else {
                assert(first as int == r0[1]);
            }
        }
        self.nodes.push(ListNode { value: Some(value), prev: 0, next: first, linked: true });
        self.nodes[first].prev = id;
        self.nodes[0].next = id;
        proof {
            self.ring@ = seq![0int, id as int] + r0.skip(1);
            let r1 = self.ring@;
            let n1 = self.nodes@;
            let len = r0.len() as int;
            lemma_mod_ring(len);
            lemma_mod_ring(len + 1);
            assert(r1.len() == len + 1);
            assert(r1[0] == 0 && r1[1] == id as int);
            assert(forall|i: int| 2 <= i < r1.len() ==> #[trigger] r1[i] == r0[i - 1]);
            assert(forall|i: int| 0 <= i < len ==> #[trigger] r0[i] < id as int);
            assert forall|i: int| 0 <= i < r1.len() implies #[trigger] n1[r1[i]].next == r1[(i + 1)
                % (r1.len() as int)] by {
                if i == 0 {
                    assert(n1[0].next == id);
                } else if i == 1 {
                    assert(n1[id as int].next == first);
                    if len == 1 {
                        assert((i + 1) % (r1.len() as int) == 0);
                        assert(first as int == 0);
                    } else {
                        assert(r1[2] == r0[1]);
                    }
                } else {
                    assert(r0[i - 1] != 0);
                    assert(n1[r1[i]].next == n0[r0[i - 1]].next);
                    assert(n0[r0[i - 1]].next == r0[(i - 1 + 1) % len]);
                    if i == r1.len() - 1 {
                        assert((i + 1) % (r1.len() as int) == 0);
                        assert((i - 1 + 1) % len == 0);
                        assert(r1[0] == r0[0]);
                    } else {
                        assert((i + 1) % (r1.len() as int) == i + 1);
                        assert((i - 1 + 1) % len == i);
                        assert(r1[i + 1] == r0[i]);
                    }
                }
            }
            assert forall|i: int| 0 <= i < r1.len() implies #[trigger] n1[r1[i]].prev == r1[(i - 1
                + r1.len()) % (r1.len() as int)] by {
                if i == 0 {
                    assert((0int - 1 + r1.len()) % (r1.len() as int) == r1.len() - 1);
                    if len == 1 {
                        assert(first as int == 0);
                        assert(n1[0].prev == id);
                        assert(r1[r1.len() - 1] == id as int);
                    } else {
                        assert(first as int == r0[1]);
                        assert(r0[1] != 0);
                        assert(n1[0].prev == n0[0].prev);
                        assert(n0[r0[0]].prev == r0[(0int - 1 + len) % len]);
                        assert(r1[r1.len() - 1] == r0[len - 1]);
                        assert((0int - 1 + len) % len == len - 1);
                        assert(r0[len - 1] != 0);
                    }
                } else if i == 1 {
                    assert(n1[id as int].prev == 0);
                } else if i == 2 {
                    assert(r1[2] == r0[1]);
                    assert(n1[r0[1]].prev == id);
                } else {
                    assert(r0[i - 1] != 0);
                    if len >= 2 {
                        assert(r0[i - 1] != r0[1]);
                    }
                    assert(n1[r1[i]].prev == n0[r0[i - 1]].prev);
                    assert(n0[r0[i - 1]].prev == r0[(i - 1 - 1 + len) % len]);
                    assert((i - 1 - 1 + len) % len == i - 2);
                    assert((i - 1 + r1.len()) % (r1.len() as int) == i - 1);
                    assert(r1[i - 1] == r0[i - 2]);
                }
            }
            assert forall|k: int| 0 <= k < n1.len() implies (#[trigger] n1[k].linked
                <==> r1.contains(k)) by {
                if k == id as int {
                    assert(r1[1] == k);
                } else {
                    if n1[k].linked {
                        let w = choose|w: int| 0 <= w < r0.len() && r0[w] == k;
                        if w == 0 {
                            assert(r1[0] == k);
                        } else {
                            assert(r1[w + 1] == k);
                        }
                    }
                    if r1.contains(k) {
                        let w = choose|w: int| 0 <= w < r1.len() && r1[w] == k;
                        if w == 0 {
                            assert(r0[0] == k);
                        } else {
                            assert(r0[w - 1] == k);
                        }
                    }
                }
            }
            // The prev pointer of the old first node was rewritten; when the
            // ring was empty that node is the sentinel itself, already
            // handled above.
            assert(final(self).view() =~= seq![value] + old(self).view());
        }
        id
    }

    /// Unlink node `id` from wherever it stands in the ring and hand back
    /// its value; the arena keeps the husk.
    #[verifier::rlimit(100)]
    pub fn remove_node_safe(&mut self, id: usize) -> (value: T)
        requires
            old(self).wf(),
            old(self).linked(id as int),
        ensures
            final(self).wf(),
            final(self).ring() == old(self).ring().remove(old(self).pos_of(id as int)),
            final(self).view() == old(self).view().remove(old(self).pos_of(id as int) - 1),
            value == old(self).value_at(id as int),
            !final(self).linked(id as int),
            final(self).arena_len() == old(self).arena_len(),
            forall|q: int|
                final(self).linked(q) <==> old(self).linked(q) && q != id as int,
            forall|q: int|
                final(self).linked(q) ==> final(self).value_at(q) == old(self).value_at(q),
    {
        let ghost r0 = self.ring@;
        let ghost n0 = self.nodes@;
        let ghost len = r0.len() as int;
        proof {
            lemma_mod_ring(len);
            assert(r0.contains(id as int));
        }
        let ghost p = r0.index_of(id as int);
        proof {
            assert(0 < p < len) by {
                assert(r0[p] == id as int);
                assert(r0[0] == 0);
            }
        }
        let prev = self.nodes[id].prev;
        let next = self.nodes[id].next;
        proof {
            assert(n0[r0[p]].prev == r0[(p - 1 + len) % len]);
            assert(n0[r0[p]].next == r0[(p + 1) % len]);
            assert((p - 1 + len) % len == p - 1);
            assert(prev as int == r0[p - 1]);
            if p == len - 1 {
                assert(next as int == r0[0]);
            } else {
                assert(next as int == r0[p + 1]);
            }
        }
        let value = match self.nodes[id].value.take() {
            Some(v) => v,
            None => unreached(),
        };
        self.nodes[id].linked = false;
        self.nodes[prev].next = next;
        self.nodes[next].prev = prev;
        proof {
            self.ring@ = r0.remove(p);
            let r1 = self.ring@;
            let n1 = self.nodes@;
            lemma_mod_ring(len);
            if len >= 2 {
                lemma_mod_ring(len - 1);
            }
            assert(r1.len() == len - 1);
            assert(forall|i: int| 0 <= i < p ==> #[trigger] r1[i] == r0[i]);
            assert(forall|i: int| p <= i < r1.len() ==> #[trigger] r1[i] == r0[i + 1]);
            assert forall|i: int| 0 <= i < r1.len() implies #[trigger] n1[r1[i]].next == r1[(i + 1)
                % (r1.len() as int)] by {
                let m = r1.len() as int;
                if i == p - 1 {
                    assert(r1[i] == r0[p - 1]);
                    assert(n1[r1[i]].next == next);
                    if p == len - 1 {
                        assert((i + 1) % m == 0);
                        assert(r1[0] == r0[0]);
                    } else {
                        assert((i + 1) % m == p);
                        assert(r1[p] == r0[p + 1]);
                    }
                } else {
                    let i0 = if i < p {
                        i
                    } else {
                        i + 1
                    };
                    assert(r1[i] == r0[i0]);
                    assert(r0[i0] != r0[p] && r0[i0] != r0[p - 1]);
                    assert(n1[r1[i]].next == n0[r0[i0]].next);
                    assert(n0[r0[i0]].next == r0[(i0 + 1) % len]);
                    if i == m - 1 {
                        assert(i0 == len - 1);
                        assert((i0 + 1) % len == 0);
                        assert((i + 1) % m == 0);
                        assert(r1[0] == r0[0]);
                    } else {
                        assert((i + 1) % m == i + 1);
                        assert((i0 + 1) % len == i0 + 1);
                        if i + 1 < p {
                            assert(r1[i + 1] == r0[i + 1]);
                        } else {
                            assert(r1[i + 1] == r0[i + 2]);
                        }
                    }
                }
            }
            assert forall|i: int| 0 <= i < r1.len() implies #[trigger] n1[r1[i]].prev == r1[(i - 1
                + r1.len()) % (r1.len() as int)] by {
                let m = r1.len() as int;
                let ip = if p == len - 1 {
                    0int
                } else {
                    p
                };
                if i == ip {
                    assert(n1[r1[i]].prev == prev);
                    assert((i - 1 + m) % m == (if ip == 0 {
                        m - 1
                    } else {
                        ip - 1
                    }));
                    if ip == 0 {
                        assert(r1[m - 1] == r0[len - 2]);
                    } else {
                        assert(r1[ip - 1] == r0[p - 1]);
                    }
                } else {
                    let i0 = if i < p {
                        i
                    } else {
                        i + 1
                    };
                    assert(r1[i] == r0[i0]);
                    assert(r0[i0] != r0[p]);
                    if p == len - 1 {
                        assert(i != 0);
                    }
                    assert(r0[i0] != r0[(p + 1) % len]);
                    assert(n1[r1[i]].prev == n0[r0[i0]].prev);
                    assert(n0[r0[i0]].prev == r0[(i0 - 1 + len) % len]);
                    if i == 0 {
                        assert(i0 == 0);
                        assert((i0 - 1 + len) % len == len - 1);
                        assert((i - 1 + m) % m == m - 1);
                        assert(r1[m - 1] == r0[len - 1]);
                        assert(p != len - 1 ==> r0[len - 1] == r1[m - 1]);
                    } else {
                        assert((i - 1 + m) % m == i - 1);
                        assert((i0 - 1 + len) % len == i0 - 1);
                        if i - 1 < p {
                            assert(r1[i - 1] == r0[i - 1]);
                            assert(i0 - 1 == i - 1 || r0[i0 - 1] == r0[p]);
                        } else {
                            assert(r1[i - 1] == r0[i]);
                        }
                    }
                }
            }
            assert forall|k: int| 0 <= k < n1.len() implies (#[trigger] n1[k].linked
                <==> r1.contains(k)) by {
                if k == id as int {
                    if r1.contains(k) {
                        let w = choose|w: int| 0 <= w < r1.len() && r1[w] == k;
                        let w0 = if w < p {
                            w
                        } else {
                            w + 1
                        };
                        assert(r0[w0] == k && r0[p] == k && w0 != p);
                    }
                } else {
                    if n1[k].linked {
                        let w = choose|w: int| 0 <= w < r0.len() && r0[w] == k;
                        assert(w != p);
                        if w < p {
                            assert(r1[w] == k);
                        } else {
                            assert(r1[w - 1] == k);
                        }
                    }
                    if r1.contains(k) {
                        let w = choose|w: int| 0 <= w < r1.len() && r1[w] == k;
                        let w0 = if w < p {
                            w
                        } else {
                            w + 1
                        };
                        assert(r0[w0] == k);
                    }
                }
            }
            assert(final(self).view() =~= old(self).view().remove(p - 1));
        }
        value
    }

    /// Remove and return the last value, `None` when the ring is empty.
    pub fn pop_back(&mut self) -> (r: Option<T>)
        requires
            old(self).wf(),
        ensures
            final(self).wf(),
            r is Some <==> old(self).view().len() > 0,
            r is None ==> *final(self) == *old(self),
            r is Some ==> r->Some_0 == old(self).view().last() && final(self).view() == old(
                self,
            ).view().drop_last(),
    {
        if self.is_empty() {
            return None;
        }
        let last = self.nodes[0].prev;
        proof {
            let r0 = self.ring@;
            let len = r0.len() as int;
            lemma_mod_ring(len);
            assert(self.nodes@[r0[0]].prev == r0[(0int - 1 + len) % len]);
            assert((0int - 1 + len) % len == len - 1);
            assert(last as int == r0[len - 1]);
            assert(len >= 2);
            assert(self.pos_of(last as int) == len - 1) by {
                assert(r0[len - 1] == last as int);
                let w = r0.index_of(last as int);
                assert(r0.contains(last as int));
                assert(r0[w] == last as int);
                assert(w == len - 1);
            }
            assert(old(self).view().remove(len - 2) =~= old(self).view().drop_last());
        }
        let v = self.remove_node_safe(last);
        Some(v)
    }

    /// Remove and return the first value, `None` when the ring is empty.
    pub fn pop_front(&mut self) -> (r: Option<T>)
        requires
            old(self).wf(),
        ensures
            final(self).wf(),
            r is Some <==> old(self).view().len() > 0,
            r is None ==> *final(self) == *old(self),
            r is Some ==> r->Some_0 == old(self).view()[0] && final(self).view() == old(
                self,
            ).view().skip(1),
    {
        if self.is_empty() {
            return None;
        }
        let first = self.nodes[0].next;
        proof {
            let r0 = self.ring@;
            let len = r0.len() as int;
            lemma_mod_ring(len);
            assert(self.nodes@[r0[0]].next == r0[(0int + 1) % len]);
            assert(len >= 2);
            assert(first as int == r0[1]);
            assert(self.pos_of(first as int) == 1) by {
                let w = r0.index_of(first as int);
                assert(r0.contains(first as int));
                assert(r0[w] == first as int);
                assert(w == 1);
            }
            assert(old(self).view().remove(0) =~= old(self).view().skip(1));
        }
        let v = self.remove_node_safe(first);
        Some(v)
    }

    /// Read the value of a linked node.
    pub fn get(&self, id: usize) -> (r: &T)
        requires
            self.wf(),
            self.linked(id as int),
        ensures
            *r == self.value_at(id as int),
    {
        proof {
            assert(self.ring@.contains(id as int));
            let w = self.ring@.index_of(id as int);
            assert(self.ring@[w] == id as int);
            assert(w != 0);
        }
        match &self.nodes[id].value {
            Some(v) => v,
            None => unreached(),
        }
    }

    /// Replace the value of a linked node, returning the old value.
    pub fn replace(&mut self, id: usize, value: T) -> (prev: T)
        requires
            old(self).wf(),
            old(self).linked(id as int),
        ensures
            final(self).wf(),
            prev == old(self).value_at(id as int),
            1 <= old(self).pos_of(id as int) < old(self).ring().len(),
            old(self).view()[old(self).pos_of(id as int) - 1] == old(self).value_at(id as int),
            final(self).ring() == old(self).ring(),
            final(self).arena_len() == old(self).arena_len(),
            final(self).view() == old(self).view().update(
                old(self).pos_of(id as int) - 1,
                value,
            ),
            final(self).value_at(id as int) == value,
            forall|q: int| final(self).linked(q) <==> old(self).linked(q),
            forall|q: int|
                final(self).linked(q) && q != id as int ==> final(self).value_at(q) == old(
                    self,
                ).value_at(q),
    {
        proof {
            assert(self.ring@.contains(id as int));
            let w = self.ring@.index_of(id as int);
            assert(self.ring@[w] == id as int);
            assert(w != 0);
        }
        let prev = match self.nodes[id].value.take() {
            Some(v) => v,
            None => unreached(),
        };
        self.nodes[id].value = Some(value);
        proof {
            let p = old(self).pos_of(id as int);
            assert(old(self).ring()[p] == id as int);
            assert(forall|i: int|
                0 <= i < self.ring@.len() && i != p ==> #[trigger] self.ring@[i] != id as int);
            assert(final(self).view() =~= old(self).view().update(p - 1, value));
        }
        prev
    }

    /// A linked node stands at a real position of the ring: past the
    /// sentinel, and the value sequence shows its value there.
    pub proof fn lemma_linked_pos(&self, id: int)
        requires
            self.wf(),
            self.linked(id),
        ensures
            1 <= self.pos_of(id) < self.ring().len(),
            self.ring()[self.pos_of(id)] == id,
            self.view().len() == self.ring().len() - 1,
            self.view()[self.pos_of(id) - 1] == self.value_at(id),
    {
        assert(self.ring@.contains(id));
        let w = self.ring@.index_of(id);
        assert(self.ring@[w] == id);
        assert(w != 0);
    }

    /// A cursor standing on the first node.
    pub fn iter(&self) -> (it: LinkedListIter)
        requires
            self.wf(),
        ensures
            it.valid_for(self),
            it.pos(self) == 1,
            self.ring().len() == self.view().len() + 1,
    {
        proof {
            let r0 = self.ring@;
            let len = r0.len() as int;
            lemma_mod_ring(len);
            assert(self.nodes@[r0[0]].next == r0[(0int + 1) % len]);
        }
        LinkedListIter { current: self.nodes[0].next }
    }
}

impl LinkedListIter {
    /// The cursor stands on the sentinel or on a node of the ring.
    pub closed spec fn valid_for(&self, list: &LinkedList<impl Sized>) -> bool {
        self.current as int == 0 || (list.ring().contains(self.current as int)
            && list.ring().index_of(self.current as int) >= 1)
    }

    /// The ring position the cursor stands on; the ring's length when the
    /// round is over.
    pub closed spec fn pos(&self, list: &LinkedList<impl Sized>) -> int {
        if self.current as int == 0 {
            list.ring().len() as int
        } else {
            list.ring().index_of(self.current as int)
        }
    }

    /// Iteration survives the removal of a node the cursor has already
    /// passed — in particular the node it just yielded.  Against the list
    /// `post` left by [`LinkedList::remove_node_safe`], the cursor is still
    /// valid and stands one position earlier, so the round continues with
    /// exactly the nodes not yet yielded.  Draining a queue by yielding,
    /// deciding and unlinking rests on this.
    pub proof fn lemma_survives_removal<T>(
        &self,
        pre: &LinkedList<T>,
        post: &LinkedList<T>,
        id: int,
    )
        requires
            pre.wf(),
            post.wf(),
            pre.linked(id),
            post.ring() == pre.ring().remove(pre.pos_of(id)),
            self.valid_for(pre),
            pre.pos_of(id) < self.pos(pre),
        ensures
            self.valid_for(post),
            self.pos(post) == self.pos(pre) - 1,
    {
        pre.lemma_linked_pos(id);
        let q = pre.pos_of(id);
        let r0 = pre.ring();
        let r1 = post.ring();
        assert(r1.len() == r0.len() - 1);
        if self.current as int == 0 {
        } else {
            let c = self.current as int;
            assert(r0.contains(c));
            let p = r0.index_of(c);
            assert(r0[p] == c);
            assert(q < p < r0.len());
            assert(r1[p - 1] == r0[p]);
            assert(r1.contains(c));
            let w = r1.index_of(c);
            assert(r1[w] == c);
            // The ring holds each index once, so the witness is the
            // shifted position.
            assert(w == p - 1) by {
                if w != p - 1 {
                    let w0 = if w < q {
                        w
                    } else {
                        w + 1
                    };
                    assert(r1[w] == r0[w0]);
                    assert(r0[w0] == r0[p] && w0 != p);
                }
            }
        }
    }

    /// The node id the cursor stands on, then a step forward; `None` once
    /// the round returns to the sentinel.
    pub fn next<T>(&mut self, list: &LinkedList<T>) -> (r: Option<usize>)
        requires
            list.wf(),
            old(self).valid_for(list),
        ensures
            r is None <==> old(self).pos(list) == list.ring().len(),
            r is None ==> *final(self) == *old(self),
            final(self).valid_for(list),
            r is Some ==> {
                &&& r->Some_0 as int == list.ring()[old(self).pos(list)]
                &&& list.linked(r->Some_0 as int)
                &&& 1 <= old(self).pos(list) < list.ring().len()
                &&& list.view().len() == list.ring().len() - 1
                &&& list.view()[old(self).pos(list) - 1] == list.value_at(r->Some_0 as int)
                &&& final(self).pos(list) == old(self).pos(list) + 1
            },
    {
        if self.current == 0 {
            return None;
        }
        let ghost r0 = list.ring();
        let ghost len = r0.len() as int;
        let ghost p = old(self).pos(list);
        proof {
            lemma_mod_ring(len);
            assert(r0.contains(self.current as int));
            assert(r0[p] == self.current as int);
            assert(1 <= p < len);
            assert(list.linked(self.current as int)) by {
                assert(r0[p] != r0[0]);
            }
        }
        let id = self.current;
        proof {
            assert(list.nodes_spec()[r0[p]].next == r0[(p + 1) % len]);
        }
        self.current = list.node_next(id);
        proof {
            if p + 1 < len {
                assert(self.current as int == r0[p + 1]);
                assert(self.current as int != 0) by {
                    assert(r0[p + 1] != r0[0]);
                }
                assert(r0.index_of(self.current as int) == p + 1) by {
                    let w = r0.index_of(self.current as int);
                    assert(r0.contains(self.current as int));
                    assert(r0[w] == r0[p + 1]);
                    assert(w == p + 1);
                }
            } else {
                assert((p + 1) % len == 0);
                assert(self.current as int == 0);
            }
        }
        Some(id)
    }
}

impl<T> LinkedList<T> {
    pub closed spec fn nodes_spec(&self) -> Seq<ListNode<T>> {
        self.nodes@
    }

    /// The successor index of a linked node (used by the cursor).
    fn node_next(&self, id: usize) -> (r: usize)
        requires
            self.wf(),
            self.linked(id as int) || id == 0,
            id < self.nodes_spec().len(),
        ensures
            r == self.nodes_spec()[id as int].next,
    {
        self.nodes[id].next
    }
}

} // verus!
