//! The model of the runtime's objects that the ownership layer is stated
//! against: for each object its class, its reference count and its
//! instance variables, and the stack of autorelease pools.
//!
//! The count belongs to the runtime. The ownership layer never keeps a
//! count of its own; it performs retains and releases, and the functions
//! here say what each of them does to the count.

use vstd::prelude::*;
use crate::class::ClassId;

verus! {

/// A raw reference to an object. Zero refers to no object.
#[derive(Clone, Copy, Debug, PartialEq, Eq, Hash, Structural)]
pub struct RawHandle(pub usize);

/// What the runtime holds of one object.
pub struct ObjectState {
    pub class: ClassId,
    /// The reference count; an object whose count is zero has been
    /// finalized.
    pub count: nat,
    pub ivars: Seq<u8>,
}

/// The objects, in the order of their creation, and the pools, the
/// innermost last. The object that the handle `h` refers to stands at
/// position `h.0 - 1`.
pub struct Heap {
    pub objects: Seq<ObjectState>,
    pub pools: Seq<Seq<RawHandle>>,
}

/// How often `h` stands in `pool`.
pub open spec fn occurrences(pool: Seq<RawHandle>, h: RawHandle) -> nat
    decreases pool.len(),
{
    if pool.len() == 0 {
        0
    } else {
        occurrences(pool.drop_last(), h) + (if pool.last() == h {
            1nat
        } else {
            0nat
        })
    }
}

/// How often `h` stands in all of `pools`.
pub open spec fn occurrences_in_all(pools: Seq<Seq<RawHandle>>, h: RawHandle) -> nat
    decreases pools.len(),
{
    if pools.len() == 0 {
        0
    } else {
        occurrences_in_all(pools.drop_last(), h) + occurrences(pools.last(), h)
    }
}

impl Heap {
    /// Whether `h` refers to an object that was created, finalized or
    /// not.
    pub open spec fn valid(self, h: RawHandle) -> bool {
        1 <= h.0 <= self.objects.len()
    }

    /// The reference count of the object; zero where there is none.
    pub open spec fn count(self, h: RawHandle) -> nat {
        if self.valid(h) {
            self.objects[h.0 - 1].count
        } else {
            0
        }
    }

    /// Whether the object exists and has not been finalized.
    pub open spec fn live(self, h: RawHandle) -> bool {
        self.count(h) > 0
    }

    /// The number of releases of the object that the pools will perform.
    pub open spec fn pending(self, h: RawHandle) -> nat {
        occurrences_in_all(self.pools, h)
    }

    /// Whether there is a reference to the object that no pool will
    /// release: the reference that a live handle stands for.
    pub open spec fn owned(self, h: RawHandle) -> bool {
        self.count(h) > self.pending(h)
    }

    /// Whether the pools will release no object more often than its count
    /// allows, and hold valid handles only.
    pub open spec fn balanced(self) -> bool {
        &&& forall|h: RawHandle| self.count(h) >= #[trigger] self.pending(h)
        &&& forall|p: int, k: int|
            0 <= p < self.pools.len() && 0 <= k < self.pools[p].len() ==> self.valid(
                #[trigger] self.pools[p][k],
            )
    }

    /// The heap with `count` as the reference count of `h`.
    pub open spec fn with_count(self, h: RawHandle, count: nat) -> Heap {
        Heap {
            objects: self.objects.update(
                h.0 - 1,
                ObjectState { count, ..self.objects[h.0 - 1] },
            ),
            ..self
        }
    }

    /// The heap after one retain of `h`.
    pub open spec fn retained(self, h: RawHandle) -> Heap {
        if self.live(h) {
            self.with_count(h, self.count(h) + 1)
        } else {
            self
        }
    }

    /// The heap after one release of `h`. The release that takes the count
    /// to zero finalizes the object.
    pub open spec fn released(self, h: RawHandle) -> Heap {
        if self.live(h) {
            self.with_count(h, (self.count(h) - 1) as nat)
        } else {
            self
        }
    }

    /// The heap after `n` retains of `h`.
    pub open spec fn retained_times(self, h: RawHandle, n: nat) -> Heap
        decreases n,
    {
        if n == 0 {
            self
        } else {
            self.retained_times(h, (n - 1) as nat).retained(h)
        }
    }

    /// The heap after `n` releases of `h`.
    pub open spec fn released_times(self, h: RawHandle, n: nat) -> Heap
        decreases n,
    {
        if n == 0 {
            self
        } else {
            self.released_times(h, (n - 1) as nat).released(h)
        }
    }

    /// The heap after one release of each handle in `hs`.
    pub open spec fn released_all(self, hs: Seq<RawHandle>) -> Heap
        decreases hs.len(),
    {
        if hs.len() == 0 {
            self
        } else {
            self.released_all(hs.drop_last()).released(hs.last())
        }
    }

    /// The heap after `h` has been handed to the innermost pool.
    pub open spec fn autoreleased(self, h: RawHandle) -> Heap {
        if self.pools.len() > 0 {
            Heap {
                pools: self.pools.update(self.pools.len() - 1, self.pools.last().push(h)),
                ..self
            }
        } else {
            self
        }
    }

    /// The heap after a new pool has been pushed.
    pub open spec fn entered(self) -> Heap {
        Heap { pools: self.pools.push(Seq::empty()), ..self }
    }

    /// The heap after the innermost pool has been popped: every object in
    /// it is released, once for each time it was handed to the pool.
    pub open spec fn exited(self) -> Heap {
        if self.pools.len() > 0 {
            (Heap { pools: self.pools.drop_last(), ..self }).released_all(self.pools.last())
        } else {
            self
        }
    }

    /// The heap after an instance of `class` with `size` bytes of zeroed
    /// instance variables has been created, with the count one.
    pub open spec fn allocated(self, class: ClassId, size: nat) -> Heap {
        Heap {
            objects: self.objects.push(
                ObjectState { class, count: 1, ivars: Seq::new(size, |i: int| 0u8) },
            ),
            ..self
        }
    }

    /// What loading a weak reference to `h` gives: the handle, where the
    /// object is live.
    pub open spec fn weak_target(self, h: RawHandle) -> Option<RawHandle> {
        if self.live(h) {
            Some(h)
        } else {
            None
        }
    }
}

// ---------------------------------------------------------------------
// Laws
// ---------------------------------------------------------------------

/// A retain or a release of `h` changes the count of `h` by one and
/// nothing else.
pub proof fn lemma_retain_release(heap: Heap, h: RawHandle)
    requires
        heap.live(h),
    ensures
        heap.retained(h).count(h) == heap.count(h) + 1,
        heap.released(h).count(h) == heap.count(h) - 1,
        heap.retained(h).pools == heap.pools,
        heap.released(h).pools == heap.pools,
        heap.retained(h).objects.len() == heap.objects.len(),
        heap.released(h).objects.len() == heap.objects.len(),
        forall|g: RawHandle| g != h ==> #[trigger] heap.retained(h).count(g) == heap.count(g),
        forall|g: RawHandle| g != h ==> #[trigger] heap.released(h).count(g) == heap.count(g),
        heap.retained(h).released(h) == heap,
        forall|o: int|
            0 <= o < heap.objects.len() ==> (#[trigger] heap.released(h).objects[o]).class
                == heap.objects[o].class && heap.released(h).objects[o].ivars
                == heap.objects[o].ivars,
{
    let back = heap.retained(h).released(h);
    assert(back.objects =~= heap.objects);
}

/// `n` retains of a live object add `n` to its count.
pub proof fn lemma_retained_times(heap: Heap, h: RawHandle, n: nat)
    requires
        heap.live(h),
    ensures
        heap.retained_times(h, n).count(h) == heap.count(h) + n,
        heap.retained_times(h, n).pools == heap.pools,
        heap.retained_times(h, n).objects.len() == heap.objects.len(),
        forall|g: RawHandle| g != h ==> #[trigger] heap.retained_times(h, n).count(g) == heap.count(g),
    decreases n,
{
    if n > 0 {
        lemma_retained_times(heap, h, (n - 1) as nat);
        lemma_retain_release(heap.retained_times(h, (n - 1) as nat), h);
    }
}

/// `n` releases of an object whose count is at least `n` take `n` off its
/// count.
pub proof fn lemma_released_times(heap: Heap, h: RawHandle, n: nat)
    requires
        heap.count(h) >= n,
    ensures
        heap.released_times(h, n).count(h) == heap.count(h) - n,
        heap.released_times(h, n).pools == heap.pools,
        heap.released_times(h, n).objects.len() == heap.objects.len(),
        forall|g: RawHandle| g != h ==> #[trigger] heap.released_times(h, n).count(g) == heap.count(g),
    decreases n,
{
    if n > 0 {
        lemma_released_times(heap, h, (n - 1) as nat);
        lemma_retain_release(heap.released_times(h, (n - 1) as nat), h);
    }
}

/// A shared handle is duplicated `n` times, and then all `n + 1` handles
/// are destroyed. Each duplication retains once and each destruction
/// releases once, so the count ends one below where it began; where the
/// first handle held the only reference, the count ends at zero and the
/// object is finalized. No other object is touched.
pub proof fn lemma_duplicates_balance(heap: Heap, h: RawHandle, n: nat)
    requires
        heap.live(h),
    ensures
        heap.retained_times(h, n).released_times(h, n + 1).count(h) == heap.count(h) - 1,
        heap.count(h) == 1 ==> !heap.retained_times(h, n).released_times(h, n + 1).live(h),
        forall|g: RawHandle|
            g != h ==> #[trigger] heap.retained_times(h, n).released_times(h, n + 1).count(g)
                == heap.count(g),
{
    lemma_retained_times(heap, h, n);
    lemma_released_times(heap.retained_times(h, n), h, n + 1);
}

/// Releasing each handle of `hs` once takes from each count the number of
/// times the handle stands in `hs`.
pub proof fn lemma_released_all(heap: Heap, hs: Seq<RawHandle>)
    requires
        forall|h: RawHandle| heap.count(h) >= #[trigger] occurrences(hs, h),
    ensures
        forall|h: RawHandle|
            #[trigger] heap.released_all(hs).count(h) == heap.count(h) - occurrences(hs, h),
        heap.released_all(hs).pools == heap.pools,
        heap.released_all(hs).objects.len() == heap.objects.len(),
        forall|o: int|
            0 <= o < heap.objects.len() ==> (#[trigger] heap.released_all(hs).objects[o]).class
                == heap.objects[o].class && heap.released_all(hs).objects[o].ivars
                == heap.objects[o].ivars,
    decreases hs.len(),
{
    if hs.len() > 0 {
        let before = heap.released_all(hs.drop_last());
        assert forall|h: RawHandle| heap.count(h) >= #[trigger] occurrences(
            hs.drop_last(),
            h,
        ) by {
            assert(heap.count(h) >= occurrences(hs, h));
        }
        lemma_released_all(heap, hs.drop_last());
        let last = hs.last();
        assert(heap.count(last) >= occurrences(hs, last));
        assert(before.count(last) == heap.count(last) - occurrences(hs.drop_last(), last));
        assert(before.live(last));
        lemma_retain_release(before, last);
        assert forall|h: RawHandle| #[trigger]
            heap.released_all(hs).count(h) == heap.count(h) - occurrences(hs, h) by {
            assert(before.count(h) == heap.count(h) - occurrences(hs.drop_last(), h));
            if h != last {
                assert(before.released(last).count(h) == before.count(h));
            }
        }
    }
}

/// An object that is handed to a pool is not released by that: its count
/// stays, and one more release is pending.
pub proof fn lemma_autoreleased(heap: Heap, h: RawHandle)
    requires
        heap.pools.len() > 0,
    ensures
        forall|g: RawHandle| #[trigger] heap.autoreleased(h).count(g) == heap.count(g),
        heap.autoreleased(h).pending(h) == heap.pending(h) + 1,
        forall|g: RawHandle| g != h ==> #[trigger] heap.autoreleased(h).pending(g) == heap.pending(g),
        occurrences(heap.autoreleased(h).pools.last(), h) == occurrences(heap.pools.last(), h) + 1,
{
    let after = heap.autoreleased(h);
    assert(after.pools.drop_last() =~= heap.pools.drop_last());
    assert(after.pools.last() == heap.pools.last().push(h));
    assert(heap.pools.last().push(h).drop_last() =~= heap.pools.last());
}

/// Popping the innermost pool releases every object exactly as often as
/// it was handed to that pool, whatever else the pool holds, and leaves
/// the outer pools as they were.
pub proof fn lemma_exited(heap: Heap)
    requires
        heap.balanced(),
        heap.pools.len() > 0,
    ensures
        forall|h: RawHandle| #[trigger]
            heap.exited().count(h) == heap.count(h) - occurrences(heap.pools.last(), h),
        forall|h: RawHandle| #[trigger]
            heap.exited().pending(h) == heap.pending(h) - occurrences(heap.pools.last(), h),
        heap.exited().pools == heap.pools.drop_last(),
        heap.exited().objects.len() == heap.objects.len(),
        heap.exited().balanced(),
        forall|o: int|
            0 <= o < heap.objects.len() ==> (#[trigger] heap.exited().objects[o]).class
                == heap.objects[o].class && heap.exited().objects[o].ivars
                == heap.objects[o].ivars,
{
    let outer = Heap { pools: heap.pools.drop_last(), ..heap };
    assert forall|h: RawHandle| outer.count(h) >= #[trigger] occurrences(heap.pools.last(), h) by {
        assert(heap.count(h) >= heap.pending(h));
    }
    lemma_released_all(outer, heap.pools.last());
    let after = heap.exited();
    assert forall|h: RawHandle| after.count(h) >= #[trigger] after.pending(h) by {
        assert(heap.count(h) >= heap.pending(h));
        assert(after.count(h) == heap.count(h) - occurrences(heap.pools.last(), h));
    }
    assert forall|p: int, k: int|
        0 <= p < after.pools.len() && 0 <= k < after.pools[p].len() implies after.valid(
        #[trigger] after.pools[p][k],
    ) by {
        assert(heap.valid(heap.pools[p][k]));
    }
}

/// Entering a scope releases nothing and promises no release.
pub proof fn lemma_entered(heap: Heap)
    ensures
        forall|h: RawHandle| #[trigger] heap.entered().count(h) == heap.count(h),
        forall|h: RawHandle| #[trigger] heap.entered().pending(h) == heap.pending(h),
        heap.balanced() ==> heap.entered().balanced(),
{
    let inner = heap.entered();
    assert(inner.pools.drop_last() =~= heap.pools);
    assert(inner.pools.last() =~= Seq::<RawHandle>::empty());
    if heap.balanced() {
        assert forall|h: RawHandle| inner.count(h) >= #[trigger] inner.pending(h) by {
            assert(heap.count(h) >= heap.pending(h));
        }
        assert forall|p: int, k: int|
            0 <= p < inner.pools.len() && 0 <= k < inner.pools[p].len() implies inner.valid(
            #[trigger] inner.pools[p][k],
        ) by {
            if p < heap.pools.len() {
                assert(heap.valid(heap.pools[p][k]));
            }
        }
    }
}

/// Entering a scope and leaving it at once changes nothing: an object in
/// an outer pool is not released by an inner scope that it was not
/// handed to.
pub proof fn lemma_inner_scope(heap: Heap)
    ensures
        heap.entered().exited() == heap,
{
    let inner = heap.entered();
    assert(inner.pools.drop_last() =~= heap.pools);
    assert(inner.pools.last() =~= Seq::<RawHandle>::empty());
    let outer = Heap { pools: inner.pools.drop_last(), ..inner };
    assert(outer.released_all(inner.pools.last()) == outer);
}

/// An object that is handed to the innermost pool keeps its count until
/// the pool is popped, and loses exactly one reference to this handing
/// over when it is.
pub proof fn lemma_autorelease_then_exit(heap: Heap, h: RawHandle)
    requires
        heap.balanced(),
        heap.pools.len() > 0,
        heap.owned(h),
    ensures
        heap.autoreleased(h).count(h) == heap.count(h),
        heap.autoreleased(h).balanced(),
        heap.autoreleased(h).exited().count(h) == heap.exited().count(h) - 1,
        forall|g: RawHandle|
            g != h ==> #[trigger] heap.autoreleased(h).exited().count(g) == heap.exited().count(g),
{
    lemma_autoreleased(heap, h);
    let after = heap.autoreleased(h);
    assert(after.balanced()) by {
        assert forall|g: RawHandle| after.count(g) >= #[trigger] after.pending(g) by {
            assert(heap.count(g) >= heap.pending(g));
            if g != h {
                assert(after.pending(g) == heap.pending(g));
            }
        }
        assert forall|p: int, k: int|
            0 <= p < after.pools.len() && 0 <= k < after.pools[p].len() implies after.valid(
            #[trigger] after.pools[p][k],
        ) by {
            if p == heap.pools.len() - 1 && k == heap.pools[p].len() {
            } else {
                assert(heap.valid(heap.pools[p][k]));
            }
        }
    }
    lemma_exited(heap);
    lemma_exited(after);
    lemma_occurrences_push(heap.pools.last(), h);
}

/// Pushing `h` adds one occurrence of `h` and none of any other handle.
pub proof fn lemma_occurrences_push(pool: Seq<RawHandle>, h: RawHandle)
    ensures
        occurrences(pool.push(h), h) == occurrences(pool, h) + 1,
        forall|g: RawHandle| g != h ==> #[trigger] occurrences(pool.push(h), g) == occurrences(pool, g),
{
    assert(pool.push(h).drop_last() =~= pool);
}

/// A weak reference that is loaded while the object is live gives the
/// object, and the handle made of it retains once. Once the only
/// reference has been released, loading gives nothing.
pub proof fn lemma_weak_load(heap: Heap, h: RawHandle)
    requires
        heap.live(h),
    ensures
        heap.weak_target(h) == Some(h),
        heap.retained(h).count(h) == heap.count(h) + 1,
        heap.count(h) == 1 ==> heap.released(h).weak_target(h) is None,
        heap.count(h) > 1 ==> heap.released(h).weak_target(h) == Some(h),
{
}

} // verus!
