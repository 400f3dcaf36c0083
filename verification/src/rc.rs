//! Ownership handles. A handle stands for one reference to an object and
//! carries the discipline under which it is held: exclusive, for the only
//! reference there is, or shared, for one reference among any number.
//!
//! Every duplication retains once and every destruction releases once, so
//! the retains and releases of this layer balance for each handle. The
//! count itself stays with the runtime.
//!
//! Releasing needs the runtime, so a handle does not release by going out
//! of scope: `destroy` and `autorelease` consume it, and the type is
//! marked as one that must be used.

use vstd::prelude::*;
use std::marker::PhantomData;
use crate::heap::RawHandle;
use crate::runtime::{Runtime, RuntimeView};
use crate::selector::Family;

verus! {

/// The discipline of a handle that holds the only reference to its
/// object.
#[derive(Debug)]
pub struct Exclusive;

/// The discipline of a handle that holds one reference among any number.
#[derive(Debug)]
pub struct Shared;

/// A handle to an object that is not null, and that owns one reference to
/// it.
#[must_use]
#[derive(Debug)]
pub struct Id<O> {
    raw: RawHandle,
    ownership: PhantomData<O>,
}

impl<O> Id<O> {
    /// The object that the handle refers to.
    pub closed spec fn raw(&self) -> RawHandle {
        self.raw
    }

    /// The object that the handle refers to.
    pub fn as_raw(&self) -> (r: RawHandle)
        ensures
            r == self.raw(),
    {
        self.raw
    }

    /// Whether two handles refer to the same object, whatever their
    /// disciplines.
    pub fn ptr_eq<P>(&self, other: &Id<P>) -> (r: bool)
        ensures
            r == (self.raw() == other.raw()),
    {
        self.raw.0 == other.raw.0
    }

    /// Destroys the handle: releases its reference, once.
    pub fn destroy(self, rt: &mut Runtime)
        requires
            old(rt).wf(),
            old(rt)@.heap.owned(self.raw()),
        ensures
            final(rt).wf(),
            final(rt)@ == (RuntimeView {
                heap: old(rt)@.heap.released(self.raw()),
                ..old(rt)@
            }),
    {
        rt.release(self.raw);
    }

    /// Hands the handle's reference to the innermost autorelease pool and
    /// gives the raw handle. The object is not released now; the pool
    /// releases it when it is popped. Where no pool is active, nothing
    /// happens and the handle comes back as the error.
    pub fn autorelease(self, rt: &mut Runtime) -> (r: Result<RawHandle, Id<O>>)
        requires
            old(rt).wf(),
            old(rt)@.heap.owned(self.raw()),
        ensures
            final(rt).wf(),
            match r {
                Ok(h) => {
                    &&& old(rt)@.heap.pools.len() > 0
                    &&& h == self.raw()
                    &&& final(rt)@ == (RuntimeView {
                        heap: old(rt)@.heap.autoreleased(h),
                        ..old(rt)@
                    })
                },
                Err(back) => {
                    &&& old(rt)@.heap.pools.len() == 0
                    &&& back.raw() == self.raw()
                    &&& final(rt)@ == old(rt)@
                },
            },
    {
        if rt.add_to_pool(self.raw) {
            Ok(self.raw)
        } else {
            Err(self)
        }
    }
}

impl Id<Exclusive> {
    /// Wraps a raw handle whose one reference the caller holds. Nothing is
    /// retained. Gives `None` for the null handle.
    pub fn wrap_owned(rt: &Runtime, raw: RawHandle) -> (r: Option<Id<Exclusive>>)
        requires
            raw.0 != 0 ==> rt@.heap.count(raw) == 1 && rt@.heap.pending(raw) == 0,
        ensures
            match r {
                Some(id) => raw.0 != 0 && id.raw() == raw,
                None => raw.0 == 0,
            },
    {
        if raw.0 == 0 {
            None
        } else {
            Some(Id { raw, ownership: PhantomData })
        }
    }

    /// Turns the handle into a shared one: retains once for the new
    /// handle, and releases once for the exclusive handle, which is
    /// consumed. The count ends where it began.
    pub fn into_shared(self, rt: &mut Runtime) -> (r: Id<Shared>)
        requires
            old(rt).wf(),
            old(rt)@.heap.owned(self.raw()),
            old(rt).can_retain(self.raw()),
        ensures
            final(rt).wf(),
            r.raw() == self.raw(),
            final(rt)@ == old(rt)@,
    {
        proof {
            crate::heap::lemma_retain_release(rt@.heap, self.raw);
        }
        rt.retain(self.raw);
        rt.release(self.raw);
        Id { raw: self.raw, ownership: PhantomData }
    }
}

impl Id<Shared> {
    /// Wraps a raw handle whose reference the caller does not own:
    /// retains once. Gives `None`, and retains nothing, for the null
    /// handle.
    pub fn wrap_borrowed_then_retain(rt: &mut Runtime, raw: RawHandle) -> (r: Option<Id<Shared>>)
        requires
            old(rt).wf(),
            raw.0 != 0 ==> old(rt).can_retain(raw),
        ensures
            final(rt).wf(),
            match r {
                Some(id) => {
                    &&& raw.0 != 0
                    &&& id.raw() == raw
                    &&& final(rt)@ == (RuntimeView {
                        heap: old(rt)@.heap.retained(raw),
                        ..old(rt)@
                    })
                },
                None => raw.0 == 0 && final(rt)@ == old(rt)@,
            },
    {
        if raw.0 == 0 {
            None
        } else {
            rt.retain(raw);
            Some(Id { raw, ownership: PhantomData })
        }
    }

    /// Wraps the result of a message by the family of its selector. A
    /// result of the owned family comes with a reference that the caller
    /// owns, and nothing is retained; any other result is retained once.
    /// Gives `None`, and retains nothing, for the null handle.
    pub fn wrap_result(rt: &mut Runtime, family: Family, raw: RawHandle) -> (r: Option<Id<Shared>>)
        requires
            old(rt).wf(),
            raw.0 != 0 && family == Family::Borrowed ==> old(rt).can_retain(raw),
            raw.0 != 0 && family == Family::Owned ==> old(rt)@.heap.owned(raw),
        ensures
            final(rt).wf(),
            match r {
                Some(id) => {
                    &&& raw.0 != 0
                    &&& id.raw() == raw
                    &&& family == Family::Owned ==> final(rt)@ == old(rt)@
                    &&& family == Family::Borrowed ==> final(rt)@ == (RuntimeView {
                        heap: old(rt)@.heap.retained(raw),
                        ..old(rt)@
                    })
                },
                None => raw.0 == 0 && final(rt)@ == old(rt)@,
            },
    {
        match family {
            Family::Owned => {
                if raw.0 == 0 {
                    None
                } else {
                    Some(Id { raw, ownership: PhantomData })
                }
            },
            Family::Borrowed => Id::<Shared>::wrap_borrowed_then_retain(rt, raw),
        }
    }

    /// A second handle to the same object: retains once.
    pub fn duplicate(&self, rt: &mut Runtime) -> (r: Id<Shared>)
        requires
            old(rt).wf(),
            old(rt).can_retain(self.raw()),
        ensures
            final(rt).wf(),
            r.raw() == self.raw(),
            final(rt)@ == (RuntimeView {
                heap: old(rt)@.heap.retained(self.raw()),
                ..old(rt)@
            }),
    {
        rt.retain(self.raw);
        Id { raw: self.raw, ownership: PhantomData }
    }
}

} // verus!
