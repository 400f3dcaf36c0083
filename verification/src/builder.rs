//! The builder of a new class: a name, a superclass, instance variables
//! and methods. Finalizing the builder consumes it and registers the
//! class, which never changes afterwards.

use vstd::prelude::*;
use crate::bytes::{bytes_eq, copy_bytes};
use crate::class::{Class, ClassId, ClassView, Imp, Ivar, IvarView, MethodEntry, MethodView, has_class_named};
use crate::encoding::{Encoding, EncodingView, duplicate_all, views_of};
use crate::error::Error;
use crate::layout::{lemma_round_up, round_up, round_up_exec};
use crate::runtime::{Runtime, RuntimeView};
use crate::selector::{Sel, arity, arity_spec};

verus! {

/// An instance variable as it is declared: without its place.
#[derive(Debug)]
pub struct IvarDecl {
    pub name: Vec<u8>,
    pub encoding: Encoding,
    pub size: u64,
    pub align: u64,
}

/// A method as it is declared: the selector by its name.
#[derive(Debug)]
pub struct MethodDecl {
    pub selector: Vec<u8>,
    pub args: Vec<Encoding>,
    pub ret: Encoding,
    pub imp: Imp,
}

/// The mathematical value of an [`IvarDecl`].
pub struct IvarDeclView {
    pub name: Seq<u8>,
    pub encoding: EncodingView,
    pub size: nat,
    pub align: nat,
}

/// The mathematical value of a [`MethodDecl`].
pub struct MethodDeclView {
    pub selector: Seq<u8>,
    pub args: Seq<EncodingView>,
    pub ret: EncodingView,
    pub imp: Imp,
}

impl View for IvarDecl {
    type V = IvarDeclView;

    open spec fn view(&self) -> IvarDeclView {
        IvarDeclView {
            name: self.name@,
            encoding: self.encoding@,
            size: self.size as nat,
            align: self.align as nat,
        }
    }
}

impl View for MethodDecl {
    type V = MethodDeclView;

    open spec fn view(&self) -> MethodDeclView {
        MethodDeclView {
            selector: self.selector@,
            args: views_of(self.args@),
            ret: self.ret@,
            imp: self.imp,
        }
    }
}

/// The description of a class that is not registered yet.
#[derive(Debug)]
pub struct ClassBuilder {
    name: Vec<u8>,
    superclass: Option<ClassId>,
    ivars: Vec<IvarDecl>,
    methods: Vec<MethodDecl>,
}

/// The mathematical value of a [`ClassBuilder`].
pub struct BuilderView {
    pub name: Seq<u8>,
    pub superclass: Option<ClassId>,
    pub ivars: Seq<IvarDeclView>,
    pub methods: Seq<MethodDeclView>,
}

impl View for ClassBuilder {
    type V = BuilderView;

    closed spec fn view(&self) -> BuilderView {
        BuilderView {
            name: self.name@,
            superclass: self.superclass,
            ivars: Seq::new(self.ivars@.len(), |i: int| self.ivars@[i]@),
            methods: Seq::new(self.methods@.len(), |i: int| self.methods@[i]@),
        }
    }
}

impl BuilderView {
    /// Whether an instance variable of this name is declared.
    pub open spec fn has_ivar(self, name: Seq<u8>) -> bool {
        exists|i: int| 0 <= i < self.ivars.len() && (#[trigger] self.ivars[i]).name == name
    }

    /// Whether a method for the selector of this name is declared.
    pub open spec fn has_method(self, selector: Seq<u8>) -> bool {
        exists|m: int| 0 <= m < self.methods.len() && (#[trigger] self.methods[m]).selector == selector
    }

    /// Whether every alignment is positive, every method takes as many
    /// arguments as its selector has colons, and no name stands twice.
    pub open spec fn wf(self) -> bool {
        &&& forall|i: int| 0 <= i < self.ivars.len() ==> (#[trigger] self.ivars[i]).align > 0
        &&& forall|i: int, j: int|
            0 <= i < j < self.ivars.len() ==> (#[trigger] self.ivars[i]).name != (
            #[trigger] self.ivars[j]).name
        &&& forall|m: int|
            0 <= m < self.methods.len() ==> (#[trigger] self.methods[m]).args.len() == arity_spec(
                self.methods[m].selector,
            )
        &&& forall|m: int, n: int|
            0 <= m < n < self.methods.len() ==> (#[trigger] self.methods[m]).selector != (
            #[trigger] self.methods[n]).selector
    }
}

/// Whether `superclass` names a class that is not registered.
pub open spec fn unknown_class(classes: Seq<ClassView>, superclass: Option<ClassId>) -> bool {
    superclass matches Some(s) && s.0 >= classes.len()
}

/// The size of an instance of the superclass; zero where there is none.
pub open spec fn base_size(classes: Seq<ClassView>, superclass: Option<ClassId>) -> nat {
    match superclass {
        Some(s) => if s.0 < classes.len() {
            classes[s.0 as int].instance_size
        } else {
            0
        },
        None => 0,
    }
}

/// The first `n` instance variables, each at the next offset behind
/// `base` that is a multiple of its alignment, and the offset behind the
/// last of them; `None` where an offset does not fit in 64 bits.
pub open spec fn placed(decls: Seq<IvarDeclView>, n: int, base: nat) -> Option<(Seq<IvarView>, nat)>
    decreases n,
{
    if n <= 0 {
        Some((Seq::empty(), base))
    } else {
        match placed(decls, n - 1, base) {
            Some((ivars, offset)) => {
                let d = decls[n - 1];
                let start = round_up(offset, d.align);
                if start + d.size <= u64::MAX {
                    Some(
                        (
                            ivars.push(
                                IvarView {
                                    name: d.name,
                                    encoding: d.encoding,
                                    size: d.size,
                                    align: d.align,
                                    offset: start,
                                },
                            ),
                            start + d.size,
                        ),
                    )
                } else {
                    None
                }
            },
            None => None,
        }
    }
}

/// The table of selectors after `name` has been interned.
pub open spec fn intern_spec(selectors: Seq<Seq<u8>>, name: Seq<u8>) -> Seq<Seq<u8>> {
    if selectors.contains(name) {
        selectors
    } else {
        selectors.push(name)
    }
}

/// The table of selectors after the selectors of the first `n` methods
/// have been interned, in order.
pub open spec fn interned(selectors: Seq<Seq<u8>>, methods: Seq<MethodDeclView>, n: int) -> Seq<
    Seq<u8>,
>
    decreases n,
{
    if n <= 0 {
        selectors
    } else {
        intern_spec(interned(selectors, methods, n - 1), methods[n - 1].selector)
    }
}

/// Whether `entries` are the declared methods, each under the selector
/// that its name is interned as in `selectors`.
pub open spec fn entries_of(
    entries: Seq<MethodView>,
    methods: Seq<MethodDeclView>,
    selectors: Seq<Seq<u8>>,
) -> bool {
    &&& entries.len() == methods.len()
    &&& forall|m: int|
        0 <= m < methods.len() ==> {
            let e = #[trigger] entries[m];
            &&& e.sel.0 < selectors.len()
            &&& selectors[e.sel.0 as int] == methods[m].selector
            &&& e.imp == methods[m].imp
            &&& e.args == methods[m].args
            &&& e.ret == methods[m].ret
        }
}

/// Whether `class` is the class that `builder` describes, registered in
/// a runtime with the classes `classes` and the selectors `selectors`.
pub open spec fn class_of_builder(
    class: ClassView,
    builder: BuilderView,
    classes: Seq<ClassView>,
    selectors: Seq<Seq<u8>>,
) -> bool {
    &&& class.name == builder.name
    &&& class.superclass == builder.superclass
    &&& entries_of(class.methods, builder.methods, selectors)
    &&& placed(
        builder.ivars,
        builder.ivars.len() as int,
        base_size(classes, builder.superclass),
    ) == Some((class.ivars, class.instance_size))
}

/// Instance variables are placed in the order of their declaration,
/// behind the instance of the superclass: each stands at a multiple of its
/// alignment, none overlaps an earlier one, and all lie within the
/// instance.
pub proof fn lemma_placed_layout(decls: Seq<IvarDeclView>, n: int, base: nat)
    requires
        0 <= n <= decls.len(),
        forall|i: int| 0 <= i < n ==> (#[trigger] decls[i]).align > 0,
        placed(decls, n, base) is Some,
    ensures
        (placed(decls, n, base)->0).0.len() == n,
        base <= (placed(decls, n, base)->0).1,
        forall|i: int|
            0 <= i < n ==> {
                let ivar = #[trigger] (placed(decls, n, base)->0).0[i];
                &&& ivar.name == decls[i].name
                &&& ivar.encoding == decls[i].encoding
                &&& ivar.size == decls[i].size
                &&& ivar.align == decls[i].align
                &&& ivar.offset % ivar.align == 0
                &&& base <= ivar.offset
                &&& ivar.offset + ivar.size <= (placed(decls, n, base)->0).1
            },
        forall|i: int, j: int|
            0 <= i < j < n ==> (#[trigger] (placed(decls, n, base)->0).0[i]).offset + (placed(
                decls,
                n,
                base,
            )->0).0[i].size <= (#[trigger] (placed(decls, n, base)->0).0[j]).offset,
    decreases n,
{
    if n > 0 {
        lemma_placed_layout(decls, n - 1, base);
        let (before, offset) = placed(decls, n - 1, base)->0;
        let (ivars, size) = placed(decls, n, base)->0;
        let d = decls[n - 1];
        assert(d.align > 0);
        lemma_round_up(offset, d.align);
        assert(ivars == before.push(ivars[n - 1]));
        assert forall|i: int| 0 <= i < n implies {
            let ivar = #[trigger] ivars[i];
            &&& ivar.name == decls[i].name
            &&& ivar.encoding == decls[i].encoding
            &&& ivar.size == decls[i].size
            &&& ivar.align == decls[i].align
            &&& ivar.offset % ivar.align == 0
            &&& base <= ivar.offset
            &&& ivar.offset + ivar.size <= size
        } by {
            if i < n - 1 {
                assert(ivars[i] == before[i]);
            }
        }
        assert forall|i: int, j: int| 0 <= i < j < n implies (#[trigger] ivars[i]).offset
            + ivars[i].size <= (#[trigger] ivars[j]).offset by {
            assert(ivars[i] == before[i]);
            if j < n - 1 {
                assert(ivars[j] == before[j]);
            }
        }
    }
}

proof fn lemma_placed_none(decls: Seq<IvarDeclView>, i: int, n: int, base: nat)
    requires
        i <= n,
    ensures
        placed(decls, i, base) is None ==> placed(decls, n, base) is None,
    decreases n - i,
{
    if i < n {
        lemma_placed_none(decls, i, n - 1, base);
    }
}

proof fn lemma_interned_grows(selectors: Seq<Seq<u8>>, name: Seq<u8>)
    ensures
        selectors.len() <= intern_spec(selectors, name).len(),
        forall|i: int|
            0 <= i < selectors.len() ==> #[trigger] intern_spec(selectors, name)[i] == selectors[i],
{
}

impl ClassBuilder {
    /// Whether the builder's description is well formed.
    pub closed spec fn wf(&self) -> bool {
        self@.wf()
    }

    /// The view of a well-formed builder is well formed.
    pub proof fn lemma_wf(&self)
        requires
            self.wf(),
        ensures
            self@.wf(),
    {
    }

    /// A builder for a class `name` below `superclass`. Fails with
    /// `NameCollision` where a class of that name is registered, and
    /// otherwise with `UnknownClass` where `superclass` names no
    /// registered class.
    pub fn new(rt: &Runtime, name: Vec<u8>, superclass: Option<ClassId>) -> (r: Result<
        ClassBuilder,
        Error,
    >)
        ensures
            match r {
                Ok(b) => {
                    &&& !has_class_named(rt@.classes, name@)
                    &&& superclass matches Some(s) ==> s.0 < rt@.classes.len()
                    &&& b.wf()
                    &&& b@ == (BuilderView {
                        name: name@,
                        superclass,
                        ivars: Seq::empty(),
                        methods: Seq::empty(),
                    })
                },
                Err(e) => {
                    &&& e == Error::NameCollision <==> has_class_named(rt@.classes, name@)
                    &&& e == Error::UnknownClass <==> !has_class_named(rt@.classes, name@)
                        && unknown_class(rt@.classes, superclass)
                    &&& e == Error::NameCollision || e == Error::UnknownClass
                },
            },
    {
        if rt.find_class(&name).is_some() {
            return Err(Error::NameCollision);
        }
        match superclass {
            Some(s) => {
                if s.0 >= rt.class_count() {
                    return Err(Error::UnknownClass);
                }
            },
            None => {},
        }
        let b = ClassBuilder { name, superclass, ivars: Vec::new(), methods: Vec::new() };
        assert(b@.ivars =~= Seq::empty());
        assert(b@.methods =~= Seq::empty());
        Ok(b)
    }

    /// Declares an instance variable. Fails with `NameCollision` where
    /// the builder has one of that name, and otherwise with `BadLayout`
    /// where the alignment is zero; the builder is then unchanged.
    pub fn add_ivar(&mut self, name: Vec<u8>, encoding: Encoding, size: u64, align: u64) -> (r:
        Result<(), Error>)
        requires
            old(self).wf(),
        ensures
            final(self).wf(),
            match r {
                Ok(()) => {
                    &&& !old(self)@.has_ivar(name@)
                    &&& align > 0
                    &&& final(self)@ == (BuilderView {
                        ivars: old(self)@.ivars.push(
                            IvarDeclView {
                                name: name@,
                                encoding: encoding@,
                                size: size as nat,
                                align: align as nat,
                            },
                        ),
                        ..old(self)@
                    })
                },
                Err(e) => {
                    &&& final(self)@ == old(self)@
                    &&& e == Error::NameCollision <==> old(self)@.has_ivar(name@)
                    &&& e == Error::BadLayout <==> !old(self)@.has_ivar(name@) && align == 0
                    &&& e == Error::NameCollision || e == Error::BadLayout
                },
            },
    {
        let mut i: usize = 0;
        while i < self.ivars.len()
            invariant
                self.wf(),
                i <= self.ivars.len(),
                *self == *old(self),
                forall|k: int| 0 <= k < i ==> (#[trigger] self@.ivars[k]).name != name@,
            decreases self.ivars.len() - i,
        {
            if bytes_eq(&self.ivars[i].name, &name) {
                assert(self@.ivars[i as int].name == name@);
                return Err(Error::NameCollision);
            }
            i = i + 1;
        }
        if align == 0 {
            return Err(Error::BadLayout);
        }
        let ghost view = IvarDeclView {
            name: name@,
            encoding: encoding@,
            size: size as nat,
            align: align as nat,
        };
        self.ivars.push(IvarDecl { name, encoding, size, align });
        proof {
            assert(self@.ivars =~= old(self)@.ivars.push(view));
            assert(self@.methods =~= old(self)@.methods);
            assert forall|i: int, j: int| 0 <= i < j < self@.ivars.len() implies (
            #[trigger] self@.ivars[i]).name != (#[trigger] self@.ivars[j]).name by {
                if j == old(self)@.ivars.len() {
                    assert(old(self)@.ivars[i].name != name@);
                } else {
                    assert(old(self)@.ivars[i].name != old(self)@.ivars[j].name);
                }
            }
            assert forall|i: int| 0 <= i < self@.ivars.len() implies (
            #[trigger] self@.ivars[i]).align > 0 by {
                if i < old(self)@.ivars.len() {
                    assert(old(self)@.ivars[i].align > 0);
                }
            }
        }
        Ok(())
    }

    /// Declares a method: the selector by its name, the encodings of the
    /// arguments and of the result, and the entry point of the
    /// implementation. Fails with `SignatureMismatch` where the number of
    /// arguments is not the number of colons in the selector, and
    /// otherwise with `NameCollision` where the builder has a method for
    /// the selector; the builder is then unchanged.
    pub fn add_method(&mut self, selector: Vec<u8>, args: Vec<Encoding>, ret: Encoding, imp: Imp)
        -> (r: Result<(), Error>)
        requires
            old(self).wf(),
        ensures
            final(self).wf(),
            match r {
                Ok(()) => {
                    &&& args@.len() == arity_spec(selector@)
                    &&& !old(self)@.has_method(selector@)
                    &&& final(self)@ == (BuilderView {
                        methods: old(self)@.methods.push(
                            MethodDeclView {
                                selector: selector@,
                                args: views_of(args@),
                                ret: ret@,
                                imp,
                            },
                        ),
                        ..old(self)@
                    })
                },
                Err(e) => {
                    &&& final(self)@ == old(self)@
                    &&& e == Error::SignatureMismatch <==> args@.len() != arity_spec(selector@)
                    &&& e == Error::NameCollision <==> args@.len() == arity_spec(selector@)
                        && old(self)@.has_method(selector@)
                    &&& e == Error::SignatureMismatch || e == Error::NameCollision
                },
            },
    {
        if arity(&selector) != args.len() {
            return Err(Error::SignatureMismatch);
        }
        let mut m: usize = 0;
        while m < self.methods.len()
            invariant
                self.wf(),
                args@.len() == arity_spec(selector@),
                m <= self.methods.len(),
                *self == *old(self),
                forall|k: int| 0 <= k < m ==> (#[trigger] self@.methods[k]).selector != selector@,
            decreases self.methods.len() - m,
        {
            if bytes_eq(&self.methods[m].selector, &selector) {
                assert(self@.methods[m as int].selector == selector@);
                return Err(Error::NameCollision);
            }
            m = m + 1;
        }
        let ghost view = MethodDeclView {
            selector: selector@,
            args: views_of(args@),
            ret: ret@,
            imp,
        };
        self.methods.push(MethodDecl { selector, args, ret, imp });
        proof {
            assert(self@.methods =~= old(self)@.methods.push(view));
            assert(self@.ivars =~= old(self)@.ivars);
            assert forall|m: int, n: int| 0 <= m < n < self@.methods.len() implies (
            #[trigger] self@.methods[m]).selector != (#[trigger] self@.methods[n]).selector by {
                if n == old(self)@.methods.len() {
                    assert(old(self)@.methods[m].selector != selector@);
                } else {
                    assert(old(self)@.methods[m].selector != old(self)@.methods[n].selector);
                }
            }
            assert forall|m: int| 0 <= m < self@.methods.len() implies (
            #[trigger] self@.methods[m]).args.len() == arity_spec(self@.methods[m].selector) by {
                if m < old(self)@.methods.len() {
                    assert(old(self)@.methods[m].args.len() == arity_spec(
                        old(self)@.methods[m].selector,
                    ));
                }
            }
        }
        Ok(())
    }

    /// Places the instance variables behind an instance of the
    /// superclass.
    fn place_ivars(&self, base: u64) -> (r: Option<(Vec<Ivar>, u64)>)
        requires
            self.wf(),
        ensures
            match r {
                Some((ivars, size)) => placed(self@.ivars, self@.ivars.len() as int, base as nat)
                    == Some((Seq::new(ivars@.len(), |i: int| ivars@[i]@), size as nat)),
                None => placed(self@.ivars, self@.ivars.len() as int, base as nat) is None,
            },
    {
        let mut out: Vec<Ivar> = Vec::new();
        let mut offset: u64 = base;
        let mut i: usize = 0;
        while i < self.ivars.len()
            invariant
                self.wf(),
                i <= self.ivars.len(),
                placed(self@.ivars, i as int, base as nat) == Some(
                    (Seq::new(out@.len(), |k: int| out@[k]@), offset as nat),
                ),
            decreases self.ivars.len() - i,
        {
            let decl = &self.ivars[i];
            assert(self@.ivars[i as int] == decl@);
            assert(self@.ivars[i as int].align > 0);
            let ghost placed_before = Seq::new(out@.len(), |k: int| out@[k]@);
            proof {
                lemma_placed_none(self@.ivars, i as int + 1, self@.ivars.len() as int, base as nat);
            }
            match round_up_exec(offset, decl.align) {
                None => {
                    return None;
                },
                Some(start) => {
                    if start > u64::MAX - decl.size {
                        return None;
                    }
                    let ivar = Ivar {
                        name: copy_bytes(&decl.name),
                        encoding: decl.encoding.duplicate(),
                        size: decl.size,
                        align: decl.align,
                        offset: start,
                    };
                    let ghost view = ivar@;
                    out.push(ivar);
                    offset = start + decl.size;
                    assert(Seq::new(out@.len(), |k: int| out@[k]@) =~= placed_before.push(view));
                },
            }
            i = i + 1;
        }
        Some((out, offset))
    }

    /// Registers the class. Fails with `NameCollision` where a class of
    /// the name has been registered meanwhile, otherwise with
    /// `UnknownClass` where the superclass names no registered class, and
    /// otherwise with `BadLayout` where the instance does not fit in 64
    /// bits; the runtime is then unchanged. Otherwise the selectors of the
    /// methods are interned, in order, and the class is registered behind
    /// the classes that are there.
    pub fn finalize(self, rt: &mut Runtime) -> (r: Result<ClassId, Error>)
        requires
            self.wf(),
            old(rt).wf(),
        ensures
            final(rt).wf(),
            match r {
                Ok(id) => {
                    &&& id.0 == old(rt)@.classes.len()
                    &&& !has_class_named(old(rt)@.classes, self@.name)
                    &&& !unknown_class(old(rt)@.classes, self@.superclass)
                    &&& final(rt)@.selectors == interned(
                        old(rt)@.selectors,
                        self@.methods,
                        self@.methods.len() as int,
                    )
                    &&& final(rt)@.classes.len() == old(rt)@.classes.len() + 1
                    &&& final(rt)@.classes.subrange(0, id.0 as int) == old(rt)@.classes
                    &&& class_of_builder(
                        final(rt)@.classes[id.0 as int],
                        self@,
                        old(rt)@.classes,
                        final(rt)@.selectors,
                    )
                    &&& final(rt)@.heap == old(rt)@.heap
                    &&& final(rt)@.aliases == old(rt)@.aliases
                    &&& final(rt)@.abi == old(rt)@.abi
                },
                Err(e) => {
                    &&& final(rt)@ == old(rt)@
                    &&& e == Error::NameCollision <==> has_class_named(old(rt)@.classes, self@.name)
                    &&& e == Error::UnknownClass <==> !has_class_named(
                        old(rt)@.classes,
                        self@.name,
                    ) && unknown_class(old(rt)@.classes, self@.superclass)
                    &&& e == Error::NameCollision || e == Error::UnknownClass || e
                        == Error::BadLayout
                    &&& e == Error::BadLayout <==> !has_class_named(old(rt)@.classes, self@.name)
                        && !unknown_class(old(rt)@.classes, self@.superclass) && placed(
                        self@.ivars,
                        self@.ivars.len() as int,
                        base_size(old(rt)@.classes, self@.superclass),
                    ) is None
                },
            },
    {
        if rt.find_class(&self.name).is_some() {
            return Err(Error::NameCollision);
        }
        let base: u64 = match self.superclass {
            Some(s) => {
                match rt.class(s) {
                    Some(class) => class.instance_size,
                    None => {
                        return Err(Error::UnknownClass);
                    },
                }
            },
            None => 0,
        };
        let (ivars, instance_size) = match self.place_ivars(base) {
            Some(p) => p,
            None => {
                return Err(Error::BadLayout);
            },
        };
        let mut entries: Vec<MethodEntry> = Vec::new();
        let mut m: usize = 0;
        while m < self.methods.len()
            invariant
                self.wf(),
                rt.wf(),
                m <= self.methods.len(),
                entries@.len() == m,
                rt@ == (RuntimeView {
                    selectors: interned(old(rt)@.selectors, self@.methods, m as int),
                    ..old(rt)@
                }),
                forall|k: int|
                    0 <= k < m ==> {
                        let e = (#[trigger] entries@[k])@;
                        &&& e.sel.0 < rt@.selectors.len()
                        &&& rt@.selectors[e.sel.0 as int] == self@.methods[k].selector
                        &&& e.imp == self@.methods[k].imp
                        &&& e.args == self@.methods[k].args
                        &&& e.ret == self@.methods[k].ret
                    },
            decreases self.methods.len() - m,
        {
            let decl = &self.methods[m];
            assert(self@.methods[m as int] == decl@);
            let ghost table = rt@.selectors;
            let sel = rt.intern(&decl.selector);
            proof {
                lemma_interned_grows(table, decl.selector@);
                assert(rt@.selectors == intern_spec(table, decl.selector@));
            }
            entries.push(
                MethodEntry {
                    sel,
                    imp: decl.imp,
                    args: duplicate_all(&decl.args),
                    ret: decl.ret.duplicate(),
                },
            );
            m = m + 1;
        }
        let class = Class {
            name: copy_bytes(&self.name),
            superclass: self.superclass,
            methods: entries,
            ivars,
            instance_size,
        };
        proof {
            assert(class@.ivars =~= Seq::new(class.ivars@.len(), |i: int| class.ivars@[i]@));
            assert forall|k: int| 0 <= k < class@.methods.len() implies {
                let entry = #[trigger] class@.methods[k];
                entry.sel.0 < rt@.selectors.len() && entry.args.len() == arity_spec(
                    rt@.selectors[entry.sel.0 as int],
                )
            } by {
                assert(class@.methods[k] == class.methods@[k]@);
                assert(self@.methods[k].args.len() == arity_spec(self@.methods[k].selector));
            }
            assert(entries_of(class@.methods, self@.methods, rt@.selectors)) by {
                assert forall|k: int| 0 <= k < self@.methods.len() implies {
                    let e = #[trigger] class@.methods[k];
                    &&& e.sel.0 < rt@.selectors.len()
                    &&& rt@.selectors[e.sel.0 as int] == self@.methods[k].selector
                    &&& e.imp == self@.methods[k].imp
                    &&& e.args == self@.methods[k].args
                    &&& e.ret == self@.methods[k].ret
                } by {
                    assert(class@.methods[k] == class.methods@[k]@);
                }
            }
        }
        let ghost view = class@;
        let id = rt.register_class(class);
        proof {
            assert(rt@.classes.subrange(0, id.0 as int) =~= old(rt)@.classes);
            assert(rt@.classes[id.0 as int] == view);
        }
        Ok(id)
    }
}

} // verus!
