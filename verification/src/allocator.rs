//! The allocator capability: hands out backing buffers of uninitialized
//! slots and takes them back, counting both events so that callers can show
//! that every allocation is matched by exactly one release.

use vstd::prelude::*;

verus! {

/// An instrumented allocator capability.
///
/// The capability is injected into every container operation that acquires
/// or releases backing storage.  The two counters witness the ownership
/// discipline: a buffer in free mode is released exactly once, a buffer in
/// compact mode never.
#[derive(Debug)]
pub struct Allocator {
    /// Number of buffers handed out so far.
    pub allocs: usize,
    /// Number of buffers taken back so far.
    pub deallocs: usize,
}

impl Allocator {
    /// Number of buffers currently outstanding.
    pub open spec fn outstanding(&self) -> int {
        self.allocs - self.deallocs
    }

    pub fn new() -> (a: Allocator)
        ensures
            a.allocs == 0,
            a.deallocs == 0,
    {
        Allocator { allocs: 0, deallocs: 0 }
    }

    /// Allocate a buffer of `n` uninitialized slots of `T`.
    pub fn allocate<T>(&mut self, n: usize) -> (buf: Vec<Option<T>>)
        requires
            old(self).allocs < usize::MAX,
        ensures
            buf@.len() == n,
            forall|i: int| 0 <= i < n ==> buf@[i] is None,
            final(self).allocs == old(self).allocs + 1,
            final(self).deallocs == old(self).deallocs,
    {
        let mut buf: Vec<Option<T>> = Vec::new();
        let mut i: usize = 0;
        while i < n
            invariant
                i <= n,
                buf@.len() == i,
                forall|j: int| 0 <= j < i ==> buf@[j] is None,
            decreases n - i,
        {
            buf.push(None);
            i += 1;
        }
        self.allocs = self.allocs + 1;
        buf
    }

    /// Take back a buffer of `n` slots previously obtained from `allocate`
    /// with the same `n`; its remaining contents are destroyed with it.
    pub fn deallocate<T>(&mut self, buf: Vec<Option<T>>, n: usize)
        requires
            buf@.len() == n,
            old(self).deallocs < usize::MAX,
        ensures
            final(self).allocs == old(self).allocs,
            final(self).deallocs == old(self).deallocs + 1,
    {
        let _ = buf;
        self.deallocs = self.deallocs + 1;
    }
}

} // verus!
