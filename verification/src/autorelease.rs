//! Autorelease scopes. A scope pushes a pool; objects that are
//! autoreleased while it is the innermost are released when it ends.
//! Scopes nest, and end in the reverse order of their beginning.

use vstd::prelude::*;
use crate::runtime::{Runtime, RuntimeView};

verus! {

/// The guard of one scope. Ending the scope consumes it.
#[must_use]
#[derive(Debug)]
pub struct ScopeGuard {
    depth: usize,
}

impl ScopeGuard {
    /// The number of pools on the stack when the scope had begun.
    pub closed spec fn depth(&self) -> nat {
        self.depth as nat
    }

    /// Begins a scope: pushes a pool.
    pub fn enter(rt: &mut Runtime) -> (guard: ScopeGuard)
        requires
            old(rt).wf(),
        ensures
            final(rt).wf(),
            guard.depth() == old(rt)@.heap.pools.len() + 1,
            final(rt)@ == (RuntimeView { heap: old(rt)@.heap.entered(), ..old(rt)@ }),
    {
        rt.push_pool();
        ScopeGuard { depth: rt.pool_depth() }
    }

    /// Whether the scope is the innermost one.
    pub fn is_innermost(&self, rt: &Runtime) -> (r: bool)
        ensures
            r == (self.depth() == rt@.heap.pools.len()),
    {
        self.depth == rt.pool_depth()
    }

    /// Ends the scope, which must be the innermost one: pops its pool and
    /// releases every object in it, once for each time it was
    /// autoreleased into it.
    pub fn exit(self, rt: &mut Runtime)
        requires
            old(rt).wf(),
            self.depth() == old(rt)@.heap.pools.len(),
            old(rt)@.heap.pools.len() > 0,
        ensures
            final(rt).wf(),
            final(rt)@ == (RuntimeView { heap: old(rt)@.heap.exited(), ..old(rt)@ }),
    {
        rt.pop_pool();
    }
}

} // verus!
