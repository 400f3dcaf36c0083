//! The runtime that the bridge drives: interned selectors, the class
//! registry, and the objects with their reference counts and autorelease
//! pools.
//!
//! The runtime is kept here as a model of its own: every operation of the
//! bridge is stated, proved and tested against it. A program that drives
//! the platform's runtime performs the same operations through foreign
//! calls, and asks the library for every decision.

use vstd::prelude::*;
use crate::bytes::bytes_eq;
use crate::class::{
    Class, ClassId, ClassView, Ivar, IvarView, MethodEntry, MethodView, acyclic, class_views,
    find_ivar, find_method, has_class_named, ivar_spec, lookup_spec,
};
use crate::compat::AliasTable;
use crate::error::Error;
use crate::heap::{Heap, ObjectState, RawHandle, lemma_exited, lemma_released_all, occurrences};
use crate::layout::Abi;
use crate::selector::{Sel, SelectorTable, arity_spec};

verus! {

/// What the runtime holds of one object.
struct Object {
    class: ClassId,
    count: u64,
    ivars: Vec<u8>,
}

/// The runtime.
pub struct Runtime {
    selectors: SelectorTable,
    aliases: AliasTable,
    abi: Abi,
    classes: Vec<Class>,
    objects: Vec<Object>,
    pools: Vec<Vec<RawHandle>>,
}

/// The state of the runtime.
pub struct RuntimeView {
    /// The interned selectors; position `i` holds the name of `Sel(i)`.
    pub selectors: Seq<Seq<u8>>,
    pub aliases: Map<Seq<u8>, Seq<u8>>,
    pub abi: Abi,
    /// The registered classes; position `i` holds the class `ClassId(i)`.
    pub classes: Seq<ClassView>,
    pub heap: Heap,
}

impl RuntimeView {
    /// Whether every method's selector is interned and takes as many
    /// arguments as the method declares.
    pub open spec fn methods_valid(self) -> bool {
        forall|c: int, m: int|
            0 <= c < self.classes.len() && 0 <= m < self.classes[c].methods.len() ==> {
                let entry = #[trigger] self.classes[c].methods[m];
                entry.sel.0 < self.selectors.len() && entry.args.len() == arity_spec(
                    self.selectors[entry.sel.0 as int],
                )
            }
    }

    /// Whether the state is one that the runtime's operations keep up:
    /// no selector and no class name stands twice, every class hangs
    /// below an earlier one, every object is an instance of a registered
    /// class with storage of that class's instance size, and the pools
    /// release no object more often than its count allows.
    pub open spec fn wf(self) -> bool {
        &&& forall|i: int, j: int|
            0 <= i < j < self.selectors.len() ==> #[trigger] self.selectors[i]
                != #[trigger] self.selectors[j]
        &&& acyclic(self.classes)
        &&& forall|i: int, j: int|
            0 <= i < j < self.classes.len() ==> (#[trigger] self.classes[i]).name != (
            #[trigger] self.classes[j]).name
        &&& self.methods_valid()
        &&& self.heap.balanced()
        &&& forall|o: int|
            0 <= o < self.heap.objects.len() ==> {
                let class = (#[trigger] self.heap.objects[o]).class;
                class.0 < self.classes.len() && self.heap.objects[o].ivars.len()
                    == self.classes[class.0 as int].instance_size
            }
    }

    /// The class of a live object.
    pub open spec fn class_of(self, h: RawHandle) -> Option<ClassId> {
        if self.heap.live(h) {
            Some(self.heap.objects[h.0 - 1].class)
        } else {
            None
        }
    }
}

impl View for Runtime {
    type V = RuntimeView;

    closed spec fn view(&self) -> RuntimeView {
        RuntimeView {
            selectors: self.selectors@,
            aliases: self.aliases@,
            abi: self.abi,
            classes: class_views(self.classes@),
            heap: heap_of(self.objects@, self.pools@),
        }
    }
}

spec fn heap_of(objects: Seq<Object>, pools: Seq<Vec<RawHandle>>) -> Heap {
    Heap {
        objects: Seq::new(
            objects.len(),
            |i: int|
                ObjectState {
                    class: objects[i].class,
                    count: objects[i].count as nat,
                    ivars: objects[i].ivars@,
                },
        ),
        pools: Seq::new(pools.len(), |p: int| pools[p]@),
    }
}

/// Takes one reference off the object `h`.
fn release_object(objects: &mut Vec<Object>, h: RawHandle, Ghost(pools): Ghost<Seq<Vec<RawHandle>>>)
    requires
        heap_of(old(objects)@, pools).live(h),
    ensures
        heap_of(final(objects)@, pools) == heap_of(old(objects)@, pools).released(h),
        final(objects)@.len() == old(objects)@.len(),
{
    let at = h.0 - 1;
    let count = objects[at].count;
    objects[at].count = count - 1;
    proof {
        let before = heap_of(old(objects)@, pools);
        let after = heap_of(objects@, pools);
        assert(after.objects =~= before.released(h).objects);
        assert(after.pools =~= before.released(h).pools);
    }
}

impl Runtime {
    /// Whether the runtime is in a state that its operations keep up.
    pub closed spec fn wf(&self) -> bool {
        &&& self@.wf()
        &&& self.selectors.wf()
        &&& self.objects@.len() < usize::MAX
    }

    /// In a well-formed runtime the state is well formed.
    pub proof fn lemma_wf(&self)
        requires
            self.wf(),
        ensures
            self@.wf(),
    {
    }

    /// A runtime without selectors, classes, objects and pools, for the
    /// calling conventions of `abi`.
    pub fn new(abi: Abi) -> (r: Runtime)
        ensures
            r.wf(),
            r@.selectors.len() == 0,
            r@.aliases == Map::<Seq<u8>, Seq<u8>>::empty(),
            r@.abi == abi,
            r@.classes.len() == 0,
            r@.heap.objects.len() == 0,
            r@.heap.pools.len() == 0,
    {
        let r = Runtime {
            selectors: SelectorTable::new(),
            aliases: AliasTable::new(),
            abi,
            classes: Vec::new(),
            objects: Vec::new(),
            pools: Vec::new(),
        };
        proof {
            assert forall|h: RawHandle| r@.heap.count(h) >= #[trigger] r@.heap.pending(h) by {}
        }
        r
    }

    /// The table of calling conventions.
    pub fn abi(&self) -> (r: Abi)
        ensures
            r == self@.abi,
    {
        self.abi
    }

    /// The aliases in force.
    pub fn aliases(&self) -> (r: &AliasTable)
        ensures
            r@ == self@.aliases,
    {
        &self.aliases
    }

    /// Lets the struct or union name `name` stand for `target`.
    pub fn define_alias(&mut self, name: Vec<u8>, target: Vec<u8>)
        requires
            old(self).wf(),
        ensures
            final(self).wf(),
            final(self)@ == (RuntimeView {
                aliases: old(self)@.aliases.insert(name@, target@),
                ..old(self)@
            }),
    {
        self.aliases.define(name, target);
    }

    // -----------------------------------------------------------------
    // Selectors
    // -----------------------------------------------------------------

    /// Interns a selector: gives the selector that this spelling was
    /// interned under before, or a new one. No other selector changes.
    pub fn intern(&mut self, name: &Vec<u8>) -> (sel: Sel)
        requires
            old(self).wf(),
        ensures
            final(self).wf(),
            sel.0 < final(self)@.selectors.len(),
            final(self)@.selectors[sel.0 as int] == name@,
            old(self)@.selectors.contains(name@) ==> final(self)@ == old(self)@,
            !old(self)@.selectors.contains(name@) ==> final(self)@ == (RuntimeView {
                selectors: old(self)@.selectors.push(name@),
                ..old(self)@
            }),
    {
        let sel = self.selectors.intern(name);
        proof {
            assert(final(self)@.methods_valid()) by {
                assert forall|c: int, m: int|
                    0 <= c < self@.classes.len() && 0 <= m
                        < self@.classes[c].methods.len() implies {
                    let entry = #[trigger] self@.classes[c].methods[m];
                    entry.sel.0 < self@.selectors.len() && entry.args.len() == arity_spec(
                        self@.selectors[entry.sel.0 as int],
                    )
                } by {
                    let entry = old(self)@.classes[c].methods[m];
                    assert(entry.sel.0 < old(self)@.selectors.len());
                }
            }
        }
        sel
    }

    /// The selector of this spelling, if it has been interned.
    pub fn find_selector(&self, name: &Vec<u8>) -> (r: Option<Sel>)
        requires
            self.wf(),
        ensures
            match r {
                Some(sel) => sel.0 < self@.selectors.len() && self@.selectors[sel.0 as int]
                    == name@,
                None => !self@.selectors.contains(name@),
            },
    {
        self.selectors.find(name)
    }

    /// The name of a selector; `None` where it was not interned here.
    pub fn selector_name(&self, sel: Sel) -> (r: Option<&Vec<u8>>)
        ensures
            match r {
                Some(name) => sel.0 < self@.selectors.len() && name@ == self@.selectors[sel.0 as int],
                None => sel.0 >= self@.selectors.len(),
            },
    {
        self.selectors.name(sel)
    }

    // -----------------------------------------------------------------
    // Classes
    // -----------------------------------------------------------------

    /// The number of registered classes.
    pub fn class_count(&self) -> (n: usize)
        ensures
            n == self@.classes.len(),
    {
        self.classes.len()
    }

    /// The registered class `id`.
    pub fn class(&self, id: ClassId) -> (r: Option<&Class>)
        ensures
            match r {
                Some(class) => id.0 < self@.classes.len() && class@ == self@.classes[id.0 as int],
                None => id.0 >= self@.classes.len(),
            },
    {
        if id.0 < self.classes.len() {
            Some(&self.classes[id.0])
        } else {
            None
        }
    }

    /// The class of the given name, if one is registered.
    pub fn find_class(&self, name: &Vec<u8>) -> (r: Option<ClassId>)
        ensures
            match r {
                Some(id) => id.0 < self@.classes.len() && self@.classes[id.0 as int].name == name@,
                None => !has_class_named(self@.classes, name@),
            },
    {
        let mut i: usize = 0;
        while i < self.classes.len()
            invariant
                i <= self.classes.len(),
                forall|k: int| 0 <= k < i ==> (#[trigger] self@.classes[k]).name != name@,
            decreases self.classes.len() - i,
        {
            if bytes_eq(&self.classes[i].name, name) {
                return Some(ClassId(i));
            }
            i = i + 1;
        }
        None
    }

    /// Registers a class that fits this runtime, and gives its reference.
    pub(crate) fn register_class(&mut self, class: Class) -> (id: ClassId)
        requires
            old(self).wf(),
            !has_class_named(old(self)@.classes, class@.name),
            class@.superclass matches Some(s) ==> s.0 < old(self)@.classes.len(),
            forall|m: int|
                0 <= m < class@.methods.len() ==> {
                    let entry = #[trigger] class@.methods[m];
                    entry.sel.0 < old(self)@.selectors.len() && entry.args.len() == arity_spec(
                        old(self)@.selectors[entry.sel.0 as int],
                    )
                },
        ensures
            final(self).wf(),
            id.0 == old(self)@.classes.len(),
            final(self)@ == (RuntimeView {
                classes: old(self)@.classes.push(class@),
                ..old(self)@
            }),
    {
        let id = ClassId(self.classes.len());
        let ghost view = class@;
        self.classes.push(class);
        proof {
            assert(self@.classes =~= old(self)@.classes.push(view));
            assert forall|i: int, j: int| 0 <= i < j < self@.classes.len() implies (
            #[trigger] self@.classes[i]).name != (#[trigger] self@.classes[j]).name by {
                if j == id.0 {
                    assert(old(self)@.classes[i].name != view.name);
                }
            }
            assert(self@.methods_valid()) by {
                assert forall|c: int, m: int|
                    0 <= c < self@.classes.len() && 0 <= m
                        < self@.classes[c].methods.len() implies {
                    let entry = #[trigger] self@.classes[c].methods[m];
                    entry.sel.0 < self@.selectors.len() && entry.args.len() == arity_spec(
                        self@.selectors[entry.sel.0 as int],
                    )
                } by {
                    if c < id.0 {
                        let entry = old(self)@.classes[c].methods[m];
                        assert(entry.sel.0 < old(self)@.selectors.len());
                    } else {
                        let entry = view.methods[m];
                        assert(entry.sel.0 < old(self)@.selectors.len());
                    }
                }
            }
            assert forall|o: int| 0 <= o < self@.heap.objects.len() implies {
                let class = (#[trigger] self@.heap.objects[o]).class;
                class.0 < self@.classes.len() && self@.heap.objects[o].ivars.len()
                    == self@.classes[class.0 as int].instance_size
            } by {
                let class = old(self)@.heap.objects[o].class;
                assert(class.0 < old(self)@.classes.len());
            }
        }
        id
    }

    /// The method that answers `sel` for instances of `cls`: the entry of
    /// the nearest class, from `cls` up its superclass chain, that has
    /// one. Gives the class that holds the entry, too.
    pub fn lookup(&self, cls: ClassId, sel: Sel) -> (r: Option<(ClassId, &MethodEntry)>)
        requires
            self.wf(),
        ensures
            match r {
                Some((owner, entry)) => lookup_spec(self@.classes, cls.0 as int, sel) == Some(
                    (owner.0 as int, entry@),
                ),
                None => lookup_spec(self@.classes, cls.0 as int, sel) is None,
            },
    {
        if cls.0 >= self.classes.len() {
            return None;
        }
        let mut at: usize = cls.0;
        loop
            invariant
                self.wf(),
                at < self.classes.len(),
                lookup_spec(self@.classes, cls.0 as int, sel) == lookup_spec(
                    self@.classes,
                    at as int,
                    sel,
                ),
            decreases at,
        {
            let class = &self.classes[at];
            let mut m: usize = 0;
            while m < class.methods.len()
                invariant
                    m <= class.methods.len(),
                    at < self.classes.len(),
                    *class == self.classes@[at as int],
                    find_method(self@.classes[at as int].methods, sel, 0) == find_method(
                        self@.classes[at as int].methods,
                        sel,
                        m as int,
                    ),
                    lookup_spec(self@.classes, cls.0 as int, sel) == lookup_spec(
                        self@.classes,
                        at as int,
                        sel,
                    ),
                decreases class.methods.len() - m,
            {
                if class.methods[m].sel == sel {
                    assert(self@.classes[at as int].methods[m as int] == class.methods@[m as int]@);
                    return Some((ClassId(at), &class.methods[m]));
                }
                assert(self@.classes[at as int].methods[m as int] == class.methods@[m as int]@);
                m = m + 1;
            }
            match class.superclass {
                Some(s) => {
                    at = s.0;
                },
                None => {
                    return None;
                },
            }
        }
    }

    /// The instance variable `name` of instances of `cls`: that of the
    /// nearest class, from `cls` up, that declares one.
    pub fn ivar(&self, cls: ClassId, name: &Vec<u8>) -> (r: Option<&Ivar>)
        requires
            self.wf(),
        ensures
            match r {
                Some(ivar) => ivar_spec(self@.classes, cls.0 as int, name@) == Some(ivar@),
                None => ivar_spec(self@.classes, cls.0 as int, name@) is None,
            },
    {
        if cls.0 >= self.classes.len() {
            return None;
        }
        let mut at: usize = cls.0;
        loop
            invariant
                self.wf(),
                at < self.classes.len(),
                ivar_spec(self@.classes, cls.0 as int, name@) == ivar_spec(
                    self@.classes,
                    at as int,
                    name@,
                ),
            decreases at,
        {
            let class = &self.classes[at];
            let mut i: usize = 0;
            while i < class.ivars.len()
                invariant
                    i <= class.ivars.len(),
                    at < self.classes.len(),
                    *class == self.classes@[at as int],
                    find_ivar(self@.classes[at as int].ivars, name@, 0) == find_ivar(
                        self@.classes[at as int].ivars,
                        name@,
                        i as int,
                    ),
                    ivar_spec(self@.classes, cls.0 as int, name@) == ivar_spec(
                        self@.classes,
                        at as int,
                        name@,
                    ),
                decreases class.ivars.len() - i,
            {
                assert(self@.classes[at as int].ivars[i as int] == class.ivars@[i as int]@);
                if bytes_eq(&class.ivars[i].name, name) {
                    return Some(&class.ivars[i]);
                }
                i = i + 1;
            }
            match class.superclass {
                Some(s) => {
                    at = s.0;
                },
                None => {
                    return None;
                },
            }
        }
    }

    // -----------------------------------------------------------------
    // Objects
    // -----------------------------------------------------------------

    /// The reference count of the object; zero where there is none.
    pub fn retain_count(&self, h: RawHandle) -> (n: u64)
        ensures
            n == self@.heap.count(h),
    {
        if h.0 >= 1 && h.0 <= self.objects.len() {
            self.objects[h.0 - 1].count
        } else {
            0
        }
    }

    /// The class of a live object.
    pub fn class_of(&self, h: RawHandle) -> (r: Option<ClassId>)
        ensures
            r == self@.class_of(h),
    {
        if h.0 >= 1 && h.0 <= self.objects.len() && self.objects[h.0 - 1].count > 0 {
            Some(self.objects[h.0 - 1].class)
        } else {
            None
        }
    }

    /// Whether an instance of `cls` can be created: the class is
    /// registered, and the instance and one more object fit in the address
    /// space.
    pub open spec fn can_instantiate(&self, cls: ClassId) -> bool {
        &&& cls.0 < self@.classes.len()
        &&& self@.classes[cls.0 as int].instance_size <= usize::MAX
        &&& self@.heap.objects.len() + 1 < usize::MAX
    }

    /// Creates an instance of `cls` with zeroed instance variables. The
    /// caller holds its one reference. Fails with `UnknownClass` where the
    /// class is not registered, and otherwise with `BadLayout` where the
    /// instance does not fit.
    pub fn instantiate(&mut self, cls: ClassId) -> (r: Result<RawHandle, Error>)
        requires
            old(self).wf(),
        ensures
            final(self).wf(),
            r is Ok <==> old(self).can_instantiate(cls),
            match r {
                Ok(h) => {
                    &&& cls.0 < old(self)@.classes.len()
                    &&& h.0 == old(self)@.heap.objects.len() + 1
                    &&& final(self)@ == (RuntimeView {
                        heap: old(self)@.heap.allocated(
                            cls,
                            old(self)@.classes[cls.0 as int].instance_size,
                        ),
                        ..old(self)@
                    })
                },
                Err(e) => {
                    &&& final(self)@ == old(self)@
                    &&& e == Error::UnknownClass || e == Error::BadLayout
                    &&& e == Error::UnknownClass <==> cls.0 >= old(self)@.classes.len()
                },
            },
    {
        if cls.0 >= self.classes.len() {
            return Err(Error::UnknownClass);
        }
        let size = self.classes[cls.0].instance_size;
        if size > usize::MAX as u64 || self.objects.len() >= usize::MAX - 1 {
            return Err(Error::BadLayout);
        }
        let mut ivars: Vec<u8> = Vec::new();
        let mut i: usize = 0;
        while i < size as usize
            invariant
                i <= size as usize,
                ivars@.len() == i,
                forall|k: int| 0 <= k < i ==> ivars@[k] == 0u8,
            decreases size as usize - i,
        {
            ivars.push(0);
            i = i + 1;
        }
        let h = RawHandle(self.objects.len() + 1);
        self.objects.push(Object { class: cls, count: 1, ivars });
        proof {
            let before = old(self)@.heap;
            let after = self@.heap;
            let expected = before.allocated(cls, old(self)@.classes[cls.0 as int].instance_size);
            assert(after.objects.len() == expected.objects.len());
            assert forall|k: int| 0 <= k < after.objects.len() implies after.objects[k]
                == expected.objects[k] by {
                if k == before.objects.len() {
                    assert(after.objects[k].ivars =~= expected.objects[k].ivars);
                }
            }
            assert(after.objects =~= expected.objects);
            assert(after.pools =~= expected.pools);
            assert forall|g: RawHandle| after.count(g) >= #[trigger] after.pending(g) by {
                assert(before.count(g) >= before.pending(g));
            }
            assert forall|p: int, k: int|
                0 <= p < after.pools.len() && 0 <= k < after.pools[p].len() implies after.valid(
                #[trigger] after.pools[p][k],
            ) by {
                assert(before.valid(before.pools[p][k]));
            }
        }
        Ok(h)
    }

    /// Whether one more reference to the object can be counted.
    pub open spec fn can_retain(&self, h: RawHandle) -> bool {
        self@.heap.live(h) && self@.heap.count(h) < u64::MAX
    }

    /// Adds one reference to a live object.
    pub fn retain(&mut self, h: RawHandle)
        requires
            old(self).wf(),
            old(self).can_retain(h),
        ensures
            final(self).wf(),
            final(self)@ == (RuntimeView { heap: old(self)@.heap.retained(h), ..old(self)@ }),
    {
        let at = h.0 - 1;
        let count = self.objects[at].count;
        self.objects[at].count = count + 1;
        proof {
            let before = old(self)@.heap;
            let after = self@.heap;
            assert(after.objects =~= before.retained(h).objects);
            assert(after.pools =~= before.retained(h).pools);
            assert forall|g: RawHandle| after.count(g) >= #[trigger] after.pending(g) by {
                assert(before.count(g) >= before.pending(g));
            }
            assert forall|p: int, k: int|
                0 <= p < after.pools.len() && 0 <= k < after.pools[p].len() implies after.valid(
                #[trigger] after.pools[p][k],
            ) by {
                assert(before.valid(before.pools[p][k]));
            }
        }
    }

    /// Takes one reference off an object that has one which no pool will
    /// release. The release that takes the count to zero finalizes the
    /// object.
    pub fn release(&mut self, h: RawHandle)
        requires
            old(self).wf(),
            old(self)@.heap.owned(h),
        ensures
            final(self).wf(),
            final(self)@ == (RuntimeView { heap: old(self)@.heap.released(h), ..old(self)@ }),
    {
        release_object(&mut self.objects, h, Ghost(self.pools@));
        proof {
            let before = old(self)@.heap;
            let after = self@.heap;
            assert forall|g: RawHandle| after.count(g) >= #[trigger] after.pending(g) by {
                assert(before.count(g) >= before.pending(g));
            }
            assert forall|p: int, k: int|
                0 <= p < after.pools.len() && 0 <= k < after.pools[p].len() implies after.valid(
                #[trigger] after.pools[p][k],
            ) by {
                assert(before.valid(before.pools[p][k]));
            }
        }
    }

    // -----------------------------------------------------------------
    // Pools
    // -----------------------------------------------------------------

    /// The number of pools on the stack.
    pub fn pool_depth(&self) -> (n: usize)
        ensures
            n == self@.heap.pools.len(),
    {
        self.pools.len()
    }

    /// Pushes a new pool.
    pub fn push_pool(&mut self)
        requires
            old(self).wf(),
        ensures
            final(self).wf(),
            final(self)@ == (RuntimeView { heap: old(self)@.heap.entered(), ..old(self)@ }),
    {
        self.pools.push(Vec::new());
        proof {
            let before = old(self)@.heap;
            let after = self@.heap;
            assert(after.pools =~= before.entered().pools);
            assert(after.objects =~= before.entered().objects);
            assert(after.pools.drop_last() =~= before.pools);
            assert(after.pools.last() =~= Seq::<RawHandle>::empty());
            assert forall|g: RawHandle| after.count(g) >= #[trigger] after.pending(g) by {
                assert(before.count(g) >= before.pending(g));
            }
            assert forall|p: int, k: int|
                0 <= p < after.pools.len() && 0 <= k < after.pools[p].len() implies after.valid(
                #[trigger] after.pools[p][k],
            ) by {
                if p < before.pools.len() {
                    assert(before.valid(before.pools[p][k]));
                }
            }
        }
    }

    /// Hands a reference to the object to the innermost pool, which will
    /// release it when it is popped. Gives `false`, and does nothing,
    /// where no pool is on the stack.
    pub fn add_to_pool(&mut self, h: RawHandle) -> (done: bool)
        requires
            old(self).wf(),
            old(self)@.heap.owned(h),
        ensures
            final(self).wf(),
            done == (old(self)@.heap.pools.len() > 0),
            final(self)@ == (RuntimeView { heap: old(self)@.heap.autoreleased(h), ..old(self)@ }),
    {
        if self.pools.len() == 0 {
            return false;
        }
        let top = self.pools.len() - 1;
        self.pools[top].push(h);
        proof {
            let before = old(self)@.heap;
            let after = self@.heap;
            assert(after.pools =~= before.autoreleased(h).pools);
            assert(after.objects =~= before.autoreleased(h).objects);
            crate::heap::lemma_autorelease_then_exit(before, h);
        }
        true
    }

    /// Pops the innermost pool and releases every object in it, once for
    /// each time it was handed to the pool.
    pub fn pop_pool(&mut self)
        requires
            old(self).wf(),
            old(self)@.heap.pools.len() > 0,
        ensures
            final(self).wf(),
            final(self)@ == (RuntimeView { heap: old(self)@.heap.exited(), ..old(self)@ }),
    {
        let ghost before = old(self)@.heap;
        let pool = self.pools.pop().unwrap();
        let ghost outer = Heap { pools: before.pools.drop_last(), ..before };
        proof {
            assert(self@.heap.pools =~= outer.pools);
            assert(self@.heap.objects =~= outer.objects);
            assert(pool@ == before.pools.last());
            assert forall|h: RawHandle| outer.count(h) >= #[trigger] occurrences(pool@, h) by {
                assert(before.count(h) >= before.pending(h));
            }
        }
        let mut i: usize = 0;
        while i < pool.len()
            invariant
                i <= pool.len(),
                self.selectors == old(self).selectors,
                self.aliases == old(self).aliases,
                self.abi == old(self).abi,
                self.classes == old(self).classes,
                old(self).pools@.len() > 0,
                before.pools.len() > 0,
                self.pools@ =~= old(self).pools@.drop_last(),
                self.objects@.len() == old(self).objects@.len(),
                outer == (Heap { pools: before.pools.drop_last(), ..before }),
                before == old(self)@.heap,
                forall|h: RawHandle| outer.count(h) >= #[trigger] occurrences(pool@, h),
                heap_of(self.objects@, self.pools@) == outer.released_all(
                    pool@.subrange(0, i as int),
                ),
            decreases pool.len() - i,
        {
            let h = pool[i];
            proof {
                let done = pool@.subrange(0, i as int);
                let next = pool@.subrange(0, i as int + 1);
                assert(next.drop_last() =~= done);
                assert(next.last() == h);
                lemma_occurrences_prefix(pool@, i as int + 1, h);
                assert forall|g: RawHandle| outer.count(g) >= #[trigger] occurrences(done, g) by {
                    lemma_occurrences_prefix(pool@, i as int, g);
                    assert(outer.count(g) >= occurrences(pool@, g));
                }
                lemma_released_all(outer, done);
                assert(occurrences(next, h) == occurrences(done, h) + 1);
                assert(outer.released_all(done).count(h) == outer.count(h) - occurrences(done, h));
            }
            release_object(&mut self.objects, h, Ghost(self.pools@));
            i = i + 1;
        }
        proof {
            assert(pool@.subrange(0, pool.len() as int) =~= pool@);
            lemma_exited(before);
            assert(self@.heap == before.exited());
            assert forall|o: int| 0 <= o < self@.heap.objects.len() implies {
                let class = (#[trigger] self@.heap.objects[o]).class;
                class.0 < self@.classes.len() && self@.heap.objects[o].ivars.len()
                    == self@.classes[class.0 as int].instance_size
            } by {
                let class = before.objects[o].class;
                assert(class.0 < old(self)@.classes.len());
            }
        }
    }

    // -----------------------------------------------------------------
    // Instance variables
    // -----------------------------------------------------------------

    /// The bytes `offset .. offset + len` of a live object's instance
    /// variables; `None` where the object is not live or the range does
    /// not lie within its storage.
    pub fn read_bytes(&self, h: RawHandle, offset: usize, len: usize) -> (r: Option<Vec<u8>>)
        ensures
            match r {
                Some(bytes) => {
                    &&& self@.heap.live(h)
                    &&& offset + len <= self@.heap.objects[h.0 - 1].ivars.len()
                    &&& bytes@ == self@.heap.objects[h.0 - 1].ivars.subrange(
                        offset as int,
                        offset + len,
                    )
                },
                None => !self@.heap.live(h) || offset + len > self@.heap.objects[h.0
                    - 1].ivars.len(),
            },
    {
        if h.0 == 0 || h.0 > self.objects.len() {
            return None;
        }
        let object = &self.objects[h.0 - 1];
        if object.count == 0 || offset > object.ivars.len() || len > object.ivars.len() - offset {
            return None;
        }
        let mut out: Vec<u8> = Vec::new();
        let mut i: usize = 0;
        while i < len
            invariant
                i <= len,
                offset + len <= object.ivars.len(),
                out@ == object.ivars@.subrange(offset as int, offset + i),
            decreases len - i,
        {
            out.push(object.ivars[offset + i]);
            i = i + 1;
            assert(out@ =~= object.ivars@.subrange(offset as int, offset + i));
        }
        Some(out)
    }

    /// Writes `data` over the bytes of a live object's instance variables
    /// from `offset` on. Gives `false`, and writes nothing, where the
    /// object is not live or the range does not lie within its storage.
    pub fn write_bytes(&mut self, h: RawHandle, offset: usize, data: &Vec<u8>) -> (done: bool)
        requires
            old(self).wf(),
        ensures
            final(self).wf(),
            done == (old(self)@.heap.live(h) && offset + data@.len() <= old(self)@.heap.objects[h.0
                - 1].ivars.len()),
            !done ==> final(self)@ == old(self)@,
            done ==> final(self)@ == (RuntimeView {
                heap: Heap {
                    objects: old(self)@.heap.objects.update(
                        h.0 - 1,
                        ObjectState {
                            ivars: overwritten(
                                old(self)@.heap.objects[h.0 - 1].ivars,
                                offset as int,
                                data@,
                            ),
                            ..old(self)@.heap.objects[h.0 - 1]
                        },
                    ),
                    ..old(self)@.heap
                },
                ..old(self)@
            }),
    {
        if h.0 == 0 || h.0 > self.objects.len() {
            return false;
        }
        let at = h.0 - 1;
        if self.objects[at].count == 0 || offset > self.objects[at].ivars.len() || data.len()
            > self.objects[at].ivars.len() - offset {
            return false;
        }
        let ghost start = self.objects@[at as int].ivars@;
        assert(start.len() == self.objects[at as int].ivars.len());
        let mut i: usize = 0;
        while i < data.len()
            invariant
                i <= data.len(),
                at == h.0 - 1,
                at < self.objects@.len(),
                self.objects@.len() == old(self).objects@.len(),
                start == old(self).objects@[at as int].ivars@,
                offset + data.len() <= start.len() <= usize::MAX,
                self.objects@[at as int].ivars@.len() == start.len(),
                self.selectors == old(self).selectors,
                self.aliases == old(self).aliases,
                self.abi == old(self).abi,
                self.classes == old(self).classes,
                self.pools == old(self).pools,
                forall|k: int|
                    0 <= k < self.objects@.len() && k != at ==> self.objects@[k] == old(
                        self,
                    ).objects@[k],
                self.objects@[at as int].class == old(self).objects@[at as int].class,
                self.objects@[at as int].count == old(self).objects@[at as int].count,
                self.objects@[at as int].ivars@ == overwritten(
                    start,
                    offset as int,
                    data@.subrange(0, i as int),
                ),
            decreases data.len() - i,
        {
            let byte = data[i];
            self.objects[at].ivars[offset + i] = byte;
            i = i + 1;
            assert(self.objects@[at as int].ivars@ =~= overwritten(
                start,
                offset as int,
                data@.subrange(0, i as int),
            ));
        }
        proof {
            assert(data@.subrange(0, data.len() as int) =~= data@);
            let before = old(self)@.heap;
            let after = self@.heap;
            let expected = before.objects.update(
                h.0 - 1,
                ObjectState {
                    ivars: overwritten(before.objects[h.0 - 1].ivars, offset as int, data@),
                    ..before.objects[h.0 - 1]
                },
            );
            assert(after.objects =~= expected);
            assert(after.pools =~= before.pools);
            assert forall|g: RawHandle| after.count(g) >= #[trigger] after.pending(g) by {
                assert(before.count(g) >= before.pending(g));
            }
            assert forall|p: int, k: int|
                0 <= p < after.pools.len() && 0 <= k < after.pools[p].len() implies after.valid(
                #[trigger] after.pools[p][k],
            ) by {
                assert(before.valid(before.pools[p][k]));
            }
            assert forall|o: int| 0 <= o < self@.heap.objects.len() implies {
                let class = (#[trigger] self@.heap.objects[o]).class;
                class.0 < self@.classes.len() && self@.heap.objects[o].ivars.len()
                    == self@.classes[class.0 as int].instance_size
            } by {
                let class = old(self)@.heap.objects[o].class;
                assert(class.0 < old(self)@.classes.len());
            }
        }
        true
    }
}

/// `bytes` with `data` written over it from `offset` on.
pub open spec fn overwritten(bytes: Seq<u8>, offset: int, data: Seq<u8>) -> Seq<u8> {
    Seq::new(
        bytes.len(),
        |i: int|
            if offset <= i < offset + data.len() {
                data[i - offset]
            } else {
                bytes[i]
            },
    )
}

proof fn lemma_occurrences_prefix(pool: Seq<RawHandle>, n: int, h: RawHandle)
    requires
        0 <= n <= pool.len(),
    ensures
        occurrences(pool.subrange(0, n), h) <= occurrences(pool, h),
    decreases pool.len() - n,
{
    if n < pool.len() {
        lemma_occurrences_prefix(pool, n + 1, h);
        assert(pool.subrange(0, n + 1).drop_last() =~= pool.subrange(0, n));
    } else {
        assert(pool.subrange(0, n) =~= pool);
    }
}

} // verus!
