//! Bump allocator over a fixed-size heap region.
//!
//! A single linear arena: `malloc` aligns the current break up to 8 bytes,
//! checks that the request fits, and advances the break.  `free` is a no-op;
//! reclamation is deferred.  The allocator state is the break offset together
//! with the base address of the region, so that returned addresses can be
//! shown 8-byte aligned and strictly increasing.

use vstd::prelude::*;

verus! {

/// Size of the heap region in bytes.
pub const HEAP_SIZE: usize = 32 * 1024;

/// Every address handed out is aligned to this many bytes.
pub const ALIGNMENT: usize = 8;

/// Linear arena allocator over a fixed region starting at `base`.
pub struct BumpAllocator {
    /// Address of the first byte of the heap region.
    base: u64,
    /// Offset of the first free byte, from `base`.
    brk: usize,
}

impl BumpAllocator {
    /// The break never leaves the region, and the region itself fits in the
    /// address space.
    pub closed spec fn wf(&self) -> bool {
        &&& self.brk <= HEAP_SIZE
        &&& self.base + HEAP_SIZE <= u64::MAX
    }

    pub closed spec fn spec_base(&self) -> u64 {
        self.base
    }

    pub closed spec fn spec_brk(&self) -> usize {
        self.brk
    }

    /// The break offset after aligning the break address up to `ALIGNMENT`.
    pub open spec fn aligned_brk(&self) -> int {
        let addr = self.spec_base() + self.spec_brk();
        if addr % (ALIGNMENT as int) == 0 {
            self.spec_brk() as int
        } else {
            self.spec_brk() + (ALIGNMENT as int) - addr % (ALIGNMENT as int)
        }
    }

    /// A request for `nbytes` succeeds exactly when it fits between the
    /// aligned break and the end of the region.
    pub open spec fn can_alloc(&self, nbytes: usize) -> bool {
        self.aligned_brk() + nbytes <= HEAP_SIZE
    }

    /// The address a successful request returns.
    pub open spec fn alloc_addr(&self) -> int {
        self.spec_base() + self.aligned_brk()
    }

    /// The allocator state after a successful request for `nbytes`.
    pub closed spec fn alloc_next(&self, nbytes: usize) -> BumpAllocator {
        BumpAllocator {
            base: self.base,
            brk: (self.aligned_brk() + nbytes) as usize,
        }
    }

    pub fn new(base: u64) -> (r: Self)
        requires
            base + HEAP_SIZE <= u64::MAX,
        ensures
            r.wf(),
            r.spec_base() == base,
            r.spec_brk() == 0,
    {
        BumpAllocator { base, brk: 0 }
    }

    /// Allocate `nbytes` bytes: align the break up to 8, check that the
    /// request fits, advance the break and return the address; `None` when
    /// the region is exhausted, leaving the allocator unchanged.
    pub fn malloc(&mut self, nbytes: usize) -> (r: Option<u64>)
        requires
            old(self).wf(),
        ensures
            final(self).wf(),
            final(self).spec_base() == old(self).spec_base(),
            r is Some <==> old(self).can_alloc(nbytes),
            r is Some ==> {
                &&& r->Some_0 == old(self).alloc_addr()
                &&& r->Some_0 % (ALIGNMENT as u64) == 0
                &&& r->Some_0 + nbytes <= u64::MAX
                &&& *final(self) == old(self).alloc_next(nbytes)
                &&& final(self).spec_brk() == old(self).aligned_brk() + nbytes
            },
            r is None ==> *final(self) == *old(self),
    {
        let current_addr: u64 = self.base + self.brk as u64;
        let remainder: u64 = current_addr % (ALIGNMENT as u64);
        let padding: usize = if remainder == 0 {
            0
        } else {
            (ALIGNMENT as u64 - remainder) as usize
        };
        let aligned: usize = self.brk + padding;
        if nbytes > HEAP_SIZE || aligned > HEAP_SIZE - nbytes {
            return None;
        }
        let ptr: u64 = self.base + aligned as u64;
        self.brk = aligned + nbytes;
        Some(ptr)
    }

    /// Release an address.  Reclamation is deferred, so this does nothing.
    pub fn free(&mut self, _ptr: u64)
        ensures
            *final(self) == *old(self),
    {
    }
}

/// Successive allocations return strictly increasing, 8-byte-aligned
/// addresses: the address handed out after `first` allocated `n1` bytes lies
/// strictly above the address `first` returned, whenever `n1` is not zero.
pub proof fn lemma_malloc_monotonic(first: BumpAllocator, n1: usize, n2: usize)
    requires
        first.wf(),
        first.can_alloc(n1),
        n1 >= 1,
        first.alloc_next(n1).can_alloc(n2),
    ensures
        first.alloc_addr() % (ALIGNMENT as int) == 0,
        first.alloc_next(n1).alloc_addr() % (ALIGNMENT as int) == 0,
        first.alloc_next(n1).alloc_addr() > first.alloc_addr(),
{
}

} // verus!
