//! Properties: a property declaration becomes a getter method and, where
//! the property can be set, a setter method.

use vstd::prelude::*;
use vstd::string::StringExecFns;
use crate::availability::{Availability, PlatformAvailability};
use crate::method::{Argument, MemoryManagement, Method, MethodData};
use crate::rust_type::{Inner, Nullability, Ty, TyKind};

verus! {

/// The kinds of entity that stand below a property declaration.
#[derive(Clone, Copy, Debug, PartialEq, Eq, Hash, Structural)]
pub enum EntityKind {
    ObjCClassRef,
    ObjCProtocolRef,
    TypeRef,
    ParmDecl,
    ObjCReturnsInnerPointer,
    ObjCInstanceMethodDecl,
    IbOutletAttr,
    UnexposedAttr,
    /// Any kind that has no place below a property.
    Other,
}

/// The attributes of a property declaration.
#[derive(Clone, Copy, Debug, PartialEq, Eq, Hash, Structural)]
pub struct ObjCAttributes {
    pub readonly: bool,
    pub getter: bool,
    pub assign: bool,
    pub readwrite: bool,
    pub retain: bool,
    pub copy: bool,
    pub nonatomic: bool,
    pub setter: bool,
    pub atomic: bool,
    pub weak: bool,
    pub strong: bool,
    pub unsafe_retained: bool,
    pub class: bool,
}

/// The qualifiers of a method's result or parameter type.
#[derive(Clone, Copy, Debug, PartialEq, Eq, Hash, Structural)]
pub struct ObjCQualifiers {
    pub in_: bool,
    pub inout: bool,
    pub out: bool,
    pub bycopy: bool,
    pub byref: bool,
    pub oneway: bool,
}

/// What the binding generator reads of the declaration of a property.
#[derive(Debug)]
pub struct PropertyEntity {
    /// The availability of the declaration on the platforms where it is
    /// known, if it is a declaration.
    pub platform_availability: Option<Vec<PlatformAvailability>>,
    /// The kinds of the entities below the declaration, in order.
    pub children: Vec<EntityKind>,
    /// The qualifiers on the declaration, if there are any.
    pub objc_qualifiers: Option<ObjCQualifiers>,
    /// The type of the property, if it has one.
    pub ty: Option<Inner>,
    /// Whether the property is declared `@optional`.
    pub is_objc_optional: bool,
}

/// A property whose getter and setter have not been made yet.
#[derive(Debug)]
pub struct PartialProperty {
    pub entity: PropertyEntity,
    pub name: String,
    pub getter_name: String,
    pub setter_name: Option<String>,
    pub is_class: bool,
    pub attributes: Option<ObjCAttributes>,
}

/// Whether `kind` may stand below a property.
pub open spec fn known_child(kind: EntityKind) -> bool {
    kind != EntityKind::Other
}

/// How often the kind `ObjCReturnsInnerPointer` stands among the first
/// `n` children.
pub open spec fn inner_pointers(children: Seq<EntityKind>, n: int) -> nat
    decreases n,
{
    if n <= 0 {
        0
    } else {
        inner_pointers(children, n - 1) + (if children[n - 1]
            == EntityKind::ObjCReturnsInnerPointer {
            1nat
        } else {
            0nat
        })
    }
}

/// How the result of the property's methods is managed.
pub open spec fn memory_management_spec(children: Seq<EntityKind>) -> MemoryManagement {
    if inner_pointers(children, children.len() as int) > 0 {
        MemoryManagement::ReturnsInnerPointer
    } else {
        MemoryManagement::Normal
    }
}

/// The nullability of the getter's result where the type states none:
/// a property with the attribute `copy` gives a result that is not null.
pub open spec fn default_nullability_spec(attributes: Option<ObjCAttributes>) -> Nullability {
    match attributes {
        Some(a) => if a.copy {
            Nullability::NonNull
        } else {
            Nullability::Unspecified
        },
        None => Nullability::Unspecified,
    }
}

impl PartialProperty {
    /// Whether the property can be made into methods: its declaration has
    /// an availability, only known kinds of entity below it, the kind
    /// `ObjCReturnsInnerPointer` at most once among them, and no
    /// qualifiers; it has a type where a method is made; and there is
    /// setter data where there is a setter name.
    pub open spec fn parseable(&self, getter_data: MethodData, setter_data: Option<MethodData>)
        -> bool {
        &&& self.entity.platform_availability is Some
        &&& forall|k: int|
            0 <= k < self.entity.children@.len() ==> known_child(#[trigger] self.entity.children@[k])
        &&& inner_pointers(self.entity.children@, self.entity.children@.len() as int) <= 1
        &&& self.entity.objc_qualifiers is None
        &&& !getter_data.skipped ==> self.entity.ty is Some
        &&& self.setter_name is Some ==> setter_data is Some
        &&& self.setter_name is Some && !setter_data->0.skipped ==> self.entity.ty is Some
    }

    /// Whether `m` is the getter of the property.
    pub open spec fn is_getter(&self, getter_data: MethodData, m: Method) -> bool {
        &&& m.selector@ == self.getter_name@
        &&& m.fn_name@ == self.getter_name@
        &&& m.availability@ == self.entity.platform_availability->0@
        &&& m.is_class == self.is_class
        &&& m.is_optional_protocol == self.entity.is_objc_optional
        &&& m.memory_management == memory_management_spec(self.entity.children@)
        &&& !m.designated_initializer
        &&& m.arguments@.len() == 0
        &&& m.result_type == (Ty {
            ty: self.entity.ty->0.spec_with_default_nullability(
                default_nullability_spec(self.attributes),
            ),
            kind: TyKind::MethodReturn,
        })
        &&& m.safe == !getter_data.unsafe_
        &&& m.mutating == getter_data.mutating
    }

    /// Whether `m` is the setter of the property: its selector is the
    /// setter name and a colon, and its one argument is the property.
    pub open spec fn is_setter(&self, setter_data: MethodData, m: Method) -> bool {
        &&& m.selector@ == self.setter_name->0@ + ":"@
        &&& m.fn_name@ == self.setter_name->0@
        &&& m.availability@ == self.entity.platform_availability->0@
        &&& m.is_class == self.is_class
        &&& m.is_optional_protocol == self.entity.is_objc_optional
        &&& m.memory_management == memory_management_spec(self.entity.children@)
        &&& !m.designated_initializer
        &&& m.arguments@.len() == 1
        &&& m.arguments@[0].name@ == self.name@
        &&& m.arguments@[0].qualifier is None
        &&& m.arguments@[0].ty == (Ty {
            ty: self.entity.ty->0.spec_with_default_nullability(Nullability::Unspecified),
            kind: TyKind::MethodArgument,
        })
        &&& m.result_type == (Ty { ty: Inner::Void, kind: TyKind::MethodReturn })
        &&& m.safe == !setter_data.unsafe_
        &&& m.mutating == setter_data.mutating
    }

    /// Looks at the entities below the declaration. Gives how the result
    /// is managed; `None` where an unknown kind stands among them, or the
    /// kind `ObjCReturnsInnerPointer` more than once.
    fn scan_children(&self) -> (r: Option<MemoryManagement>)
        ensures
            match r {
                Some(mm) => {
                    &&& forall|k: int|
                        0 <= k < self.entity.children@.len() ==> known_child(
                            #[trigger] self.entity.children@[k],
                        )
                    &&& inner_pointers(
                        self.entity.children@,
                        self.entity.children@.len() as int,
                    ) <= 1
                    &&& mm == memory_management_spec(self.entity.children@)
                },
                None => !(forall|k: int|
                    0 <= k < self.entity.children@.len() ==> known_child(
                        #[trigger] self.entity.children@[k],
                    )) || inner_pointers(
                    self.entity.children@,
                    self.entity.children@.len() as int,
                ) > 1,
            },
    {
        let children = &self.entity.children;
        let mut seen: bool = false;
        let mut i: usize = 0;
        while i < children.len()
            invariant
                i <= children.len(),
                children == &self.entity.children,
                forall|k: int| 0 <= k < i ==> known_child(#[trigger] children@[k]),
                inner_pointers(children@, i as int) == (if seen {
                    1nat
                } else {
                    0nat
                }),
            decreases children.len() - i,
        {
            match children[i] {
                EntityKind::Other => {
                    assert(!known_child(children@[i as int]));
                    return None;
                },
                EntityKind::ObjCReturnsInnerPointer => {
                    if seen {
                        proof {
                            lemma_inner_pointers_grow(
                                children@,
                                i as int + 1,
                                children@.len() as int,
                            );
                        }
                        return None;
                    }
                    seen = true;
                },
                _ => {},
            }
            i = i + 1;
        }
        if seen {
            Some(MemoryManagement::ReturnsInnerPointer)
        } else {
            Some(MemoryManagement::Normal)
        }
    }

    /// Whether the property can be made into methods.
    pub fn can_parse(&self, getter_data: MethodData, setter_data: Option<MethodData>) -> (r: bool)
        ensures
            r == self.parseable(getter_data, setter_data),
    {
        if self.entity.platform_availability.is_none() {
            return false;
        }
        if self.scan_children().is_none() {
            return false;
        }
        if self.entity.objc_qualifiers.is_some() {
            return false;
        }
        if !getter_data.skipped && self.entity.ty.is_none() {
            return false;
        }
        if self.setter_name.is_some() {
            match setter_data {
                None => {
                    return false;
                },
                Some(data) => {
                    if !data.skipped && self.entity.ty.is_none() {
                        return false;
                    }
                },
            }
        }
        true
    }

    /// Makes the methods of the property: the getter, unless the getter
    /// data says to skip it, and the setter, where the property has a
    /// setter name and the setter data does not say to skip it.
    pub fn parse(self, getter_data: MethodData, setter_data: Option<MethodData>) -> (r: (
        Option<Method>,
        Option<Method>,
    ))
        requires
            self.parseable(getter_data, setter_data),
        ensures
            r.0 is Some <==> !getter_data.skipped,
            r.0 matches Some(getter) ==> self.is_getter(getter_data, getter),
            r.1 is Some <==> self.setter_name is Some && !setter_data->0.skipped,
            r.1 matches Some(setter) ==> self.is_setter(setter_data->0, setter),
    {
        let memory_management = match self.scan_children() {
            Some(mm) => mm,
            None => MemoryManagement::Normal,
        };
        let PartialProperty { entity, name, getter_name, setter_name, is_class, attributes } = self;
        let PropertyEntity {
            platform_availability,
            children: _,
            objc_qualifiers: _,
            ty,
            is_objc_optional,
        } = entity;
        let availability = match platform_availability {
            Some(list) => Availability::parse(list),
            None => Availability::parse(Vec::new()),
        };
        let default_nullability = match attributes {
            Some(a) => if a.copy {
                Nullability::NonNull
            } else {
                Nullability::Unspecified
            },
            None => Nullability::Unspecified,
        };
        let getter = if !getter_data.skipped {
            let result_type = match &ty {
                Some(inner) => Ty::parse_property_return(inner.duplicate(), default_nullability),
                None => Ty::void_result(),
            };
            Some(
                Method {
                    selector: getter_name.clone(),
                    fn_name: getter_name,
                    availability: availability.duplicate(),
                    is_class,
                    is_optional_protocol: is_objc_optional,
                    memory_management,
                    designated_initializer: false,
                    arguments: Vec::new(),
                    result_type,
                    safe: !getter_data.unsafe_,
                    mutating: getter_data.mutating,
                },
            )
        } else {
            None
        };
        let setter = match setter_name {
            Some(setter_name) => {
                match setter_data {
                    Some(data) => {
                        if !data.skipped {
                            let argument_type = match ty {
                                Some(inner) => Ty::parse_property(inner, Nullability::Unspecified),
                                None => Ty::void_result(),
                            };
                            let mut selector = setter_name.clone();
                            selector.append(":");
                            let mut arguments: Vec<Argument> = Vec::new();
                            arguments.push(Argument { name, qualifier: None, ty: argument_type });
                            Some(
                                Method {
                                    selector,
                                    fn_name: setter_name,
                                    availability,
                                    is_class,
                                    is_optional_protocol: is_objc_optional,
                                    memory_management,
                                    designated_initializer: false,
                                    arguments,
                                    result_type: Ty::void_result(),
                                    safe: !data.unsafe_,
                                    mutating: data.mutating,
                                },
                            )
                        } else {
                            None
                        }
                    },
                    None => None,
                }
            },
            None => None,
        };
        (getter, setter)
    }
}

proof fn lemma_inner_pointers_grow(children: Seq<EntityKind>, i: int, n: int)
    requires
        0 <= i <= n <= children.len(),
    ensures
        inner_pointers(children, i) <= inner_pointers(children, n),
    decreases n - i,
{
    if i < n {
        lemma_inner_pointers_grow(children, i, n - 1);
    }
}

} // verus!
