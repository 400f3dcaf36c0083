//! Registered classes: a name, an optional superclass, instance variables
//! and a method table. A class never changes once it is registered.

use vstd::prelude::*;
use crate::encoding::{Encoding, EncodingView, views_of};
use crate::selector::Sel;

verus! {

/// A registered class: its place in the registry.
#[derive(Clone, Copy, Debug, PartialEq, Eq, Hash, Structural)]
pub struct ClassId(pub usize);

/// The entry point of a method implementation. The bridge never looks
/// inside; whoever performs the call knows what it stands for.
#[derive(Clone, Copy, Debug, PartialEq, Eq, Hash, Structural)]
pub struct Imp(pub usize);

/// One entry of a method table.
#[derive(Debug)]
pub struct MethodEntry {
    pub sel: Sel,
    pub imp: Imp,
    /// The encodings of the declared arguments, in order.
    pub args: Vec<Encoding>,
    /// The encoding of the result.
    pub ret: Encoding,
}

/// One instance variable, at its place within an instance.
#[derive(Debug)]
pub struct Ivar {
    pub name: Vec<u8>,
    pub encoding: Encoding,
    pub size: u64,
    pub align: u64,
    pub offset: u64,
}

/// A registered class.
#[derive(Debug)]
pub struct Class {
    pub name: Vec<u8>,
    pub superclass: Option<ClassId>,
    pub methods: Vec<MethodEntry>,
    pub ivars: Vec<Ivar>,
    /// The size of an instance: that of a superclass instance and the
    /// class's own instance variables behind it.
    pub instance_size: u64,
}

/// The mathematical value of a [`MethodEntry`].
pub struct MethodView {
    pub sel: Sel,
    pub imp: Imp,
    pub args: Seq<EncodingView>,
    pub ret: EncodingView,
}

/// The mathematical value of an [`Ivar`].
pub struct IvarView {
    pub name: Seq<u8>,
    pub encoding: EncodingView,
    pub size: nat,
    pub align: nat,
    pub offset: nat,
}

/// The mathematical value of a [`Class`].
pub struct ClassView {
    pub name: Seq<u8>,
    pub superclass: Option<ClassId>,
    pub methods: Seq<MethodView>,
    pub ivars: Seq<IvarView>,
    pub instance_size: nat,
}

impl View for MethodEntry {
    type V = MethodView;

    open spec fn view(&self) -> MethodView {
        MethodView { sel: self.sel, imp: self.imp, args: views_of(self.args@), ret: self.ret@ }
    }
}

impl View for Ivar {
    type V = IvarView;

    open spec fn view(&self) -> IvarView {
        IvarView {
            name: self.name@,
            encoding: self.encoding@,
            size: self.size as nat,
            align: self.align as nat,
            offset: self.offset as nat,
        }
    }
}

impl View for Class {
    type V = ClassView;

    open spec fn view(&self) -> ClassView {
        ClassView {
            name: self.name@,
            superclass: self.superclass,
            methods: Seq::new(self.methods@.len(), |i: int| self.methods@[i]@),
            ivars: Seq::new(self.ivars@.len(), |i: int| self.ivars@[i]@),
            instance_size: self.instance_size as nat,
        }
    }
}

/// The views of a list of classes.
pub open spec fn class_views(classes: Seq<Class>) -> Seq<ClassView> {
    Seq::new(classes.len(), |i: int| classes[i]@)
}

/// The first entry from `from` on that is for `sel`.
pub open spec fn find_method(methods: Seq<MethodView>, sel: Sel, from: int) -> Option<int>
    decreases methods.len() - from,
{
    if from < 0 || from >= methods.len() {
        None
    } else if methods[from].sel == sel {
        Some(from)
    } else {
        find_method(methods, sel, from + 1)
    }
}

/// Whether every class hangs below a class that was registered before
/// it, so that the superclass links form trees.
pub open spec fn acyclic(classes: Seq<ClassView>) -> bool {
    forall|c: int|
        0 <= c < classes.len() ==> ((#[trigger] classes[c]).superclass matches Some(s) ==> s.0 < c)
}

/// The method that answers `sel` for instances of the class `cls`: the
/// entry of the nearest class on the superclass chain, from `cls` up,
/// that has one. Gives the class that holds the entry, and the entry.
pub open spec fn lookup_spec(classes: Seq<ClassView>, cls: int, sel: Sel) -> Option<
    (int, MethodView),
>
    decreases cls,
{
    if cls < 0 || cls >= classes.len() {
        None
    } else {
        match find_method(classes[cls].methods, sel, 0) {
            Some(m) => Some((cls, classes[cls].methods[m])),
            None => match classes[cls].superclass {
                Some(s) => if s.0 < cls {
                    lookup_spec(classes, s.0 as int, sel)
                } else {
                    None
                },
                None => None,
            },
        }
    }
}

/// Whether a class of the given name is registered.
pub open spec fn has_class_named(classes: Seq<ClassView>, name: Seq<u8>) -> bool {
    exists|c: int| 0 <= c < classes.len() && (#[trigger] classes[c]).name == name
}

/// Whether `ancestor` is `cls` or stands above it on its superclass
/// chain.
pub open spec fn is_ancestor(classes: Seq<ClassView>, ancestor: int, cls: int) -> bool
    decreases cls,
{
    if cls < 0 || cls >= classes.len() {
        false
    } else if ancestor == cls {
        true
    } else {
        match classes[cls].superclass {
            Some(s) => s.0 < cls && is_ancestor(classes, ancestor, s.0 as int),
            None => false,
        }
    }
}

/// The first instance variable from `from` on with the given name.
pub open spec fn find_ivar(ivars: Seq<IvarView>, name: Seq<u8>, from: int) -> Option<int>
    decreases ivars.len() - from,
{
    if from < 0 || from >= ivars.len() {
        None
    } else if ivars[from].name == name {
        Some(from)
    } else {
        find_ivar(ivars, name, from + 1)
    }
}

/// The instance variable `name` of instances of `cls`: that of the
/// nearest class on the superclass chain that declares one.
pub open spec fn ivar_spec(classes: Seq<ClassView>, cls: int, name: Seq<u8>) -> Option<IvarView>
    decreases cls,
{
    if cls < 0 || cls >= classes.len() {
        None
    } else {
        match find_ivar(classes[cls].ivars, name, 0) {
            Some(i) => Some(classes[cls].ivars[i]),
            None => match classes[cls].superclass {
                Some(s) => if s.0 < cls {
                    ivar_spec(classes, s.0 as int, name)
                } else {
                    None
                },
                None => None,
            },
        }
    }
}

/// A method that a class answers is held by an ancestor of it.
pub proof fn lemma_lookup_owner(classes: Seq<ClassView>, cls: int, sel: Sel)
    ensures
        lookup_spec(classes, cls, sel) matches Some((owner, entry)) ==> {
            &&& is_ancestor(classes, owner, cls)
            &&& entry.sel == sel
            &&& find_method(classes[owner].methods, sel, 0) is Some
        },
    decreases cls,
{
    if 0 <= cls < classes.len() {
        lemma_find_method(classes[cls].methods, sel, 0);
        match find_method(classes[cls].methods, sel, 0) {
            Some(m) => {},
            None => match classes[cls].superclass {
                Some(s) => {
                    if s.0 < cls {
                        lemma_lookup_owner(classes, s.0 as int, sel);
                    }
                },
                None => {},
            },
        }
    }
}

/// What `find_method` finds is the first entry for the selector.
pub proof fn lemma_find_method(methods: Seq<MethodView>, sel: Sel, from: int)
    requires
        0 <= from,
    ensures
        match find_method(methods, sel, from) {
            Some(m) => from <= m < methods.len() && methods[m].sel == sel && forall|k: int|
                from <= k < m ==> (#[trigger] methods[k]).sel != sel,
            None => forall|k: int| from <= k < methods.len() ==> (#[trigger] methods[k]).sel != sel,
        },
    decreases methods.len() - from,
{
    if from < methods.len() && methods[from].sel != sel {
        lemma_find_method(methods, sel, from + 1);
    }
}

} // verus!
