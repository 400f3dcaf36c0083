//! Weak references: observers of an object that do not keep it alive.

use vstd::prelude::*;
use crate::heap::RawHandle;
use crate::rc::{Id, Shared};
use crate::runtime::{Runtime, RuntimeView};

verus! {

/// A reference that does not count. Whether its object is still there is
/// found out when the reference is loaded, not before.
#[derive(Debug)]
pub struct WeakRef {
    target: RawHandle,
}

impl WeakRef {
    /// The object that the reference observes.
    pub closed spec fn target(&self) -> RawHandle {
        self.target
    }

    /// A weak reference to the object of `id`. Nothing is retained.
    pub fn register<O>(id: &Id<O>) -> (r: WeakRef)
        ensures
            r.target() == id.raw(),
    {
        WeakRef { target: id.as_raw() }
    }

    /// Loads the reference: where the object is live, retains it once and
    /// gives a shared handle; where it has been finalized, gives `None`
    /// and changes nothing.
    pub fn load(&self, rt: &mut Runtime) -> (r: Option<Id<Shared>>)
        requires
            old(rt).wf(),
            old(rt)@.heap.count(self.target()) < u64::MAX,
        ensures
            final(rt).wf(),
            match r {
                Some(id) => {
                    &&& old(rt)@.heap.weak_target(self.target()) == Some(id.raw())
                    &&& final(rt)@ == (RuntimeView {
                        heap: old(rt)@.heap.retained(self.target()),
                        ..old(rt)@
                    })
                },
                None => {
                    &&& old(rt)@.heap.weak_target(self.target()) is None
                    &&& final(rt)@ == old(rt)@
                },
            },
    {
        if rt.retain_count(self.target) > 0 {
            Id::<Shared>::wrap_borrowed_then_retain(rt, self.target)
        } else {
            None
        }
    }
}

} // verus!
