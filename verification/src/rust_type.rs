//! The types of the declarations that bindings are generated for.

use vstd::prelude::*;

verus! {

/// Whether a value can be null.
#[derive(Clone, Copy, Debug, PartialEq, Eq, Hash, Structural)]
pub enum Nullability {
    NonNull,
    Nullable,
    Unspecified,
}

/// The declared type, as the binding generator reads it.
#[derive(Debug, PartialEq, Eq)]
pub enum Inner {
    /// No value.
    Void,
    /// A scalar of the C language, by name, such as `int`.
    C { name: String },
    /// An object pointer to the named class.
    Id { name: String, nullability: Nullability },
    /// A named `typedef`.
    TypeDef { name: String },
}

/// The position in which a type is used.
#[derive(Clone, Copy, Debug, PartialEq, Eq, Hash, Structural)]
pub enum TyKind {
    MethodReturn,
    MethodArgument,
    Typedef,
    Enum,
}

/// A type, together with the position in which it is used.
#[derive(Debug, PartialEq, Eq)]
pub struct Ty {
    pub ty: Inner,
    pub kind: TyKind,
}

impl Inner {
    /// A copy of the type.
    pub fn duplicate(&self) -> (r: Self)
        ensures
            r == *self,
    {
        match self {
            Inner::Void => Inner::Void,
            Inner::C { name } => Inner::C { name: name.clone() },
            Inner::Id { name, nullability } => Inner::Id {
                name: name.clone(),
                nullability: *nullability,
            },
            Inner::TypeDef { name } => Inner::TypeDef { name: name.clone() },
        }
    }

    /// The type with `default` in place of an unspecified nullability.
    pub open spec fn spec_with_default_nullability(self, default: Nullability) -> Inner {
        match self {
            Inner::Id { name, nullability: Nullability::Unspecified } => Inner::Id {
                name,
                nullability: default,
            },
            other => other,
        }
    }

    /// The type with `default` in place of an unspecified nullability.
    pub fn with_default_nullability(self, default: Nullability) -> (r: Inner)
        ensures
            r == self.spec_with_default_nullability(default),
    {
        match self {
            Inner::Id { name, nullability } => {
                match nullability {
                    Nullability::Unspecified => Inner::Id { name, nullability: default },
                    _ => Inner::Id { name, nullability },
                }
            },
            other => other,
        }
    }
}

impl Ty {
    /// The result type of a method that returns nothing.
    pub fn void_result() -> (r: Ty)
        ensures
            r == (Ty { ty: Inner::Void, kind: TyKind::MethodReturn }),
    {
        Ty { ty: Inner::Void, kind: TyKind::MethodReturn }
    }

    /// The type of a property as the result of its getter.
    pub fn parse_property_return(ty: Inner, default_nullability: Nullability) -> (r: Ty)
        ensures
            r == (Ty {
                ty: ty.spec_with_default_nullability(default_nullability),
                kind: TyKind::MethodReturn,
            }),
    {
        Ty { ty: ty.with_default_nullability(default_nullability), kind: TyKind::MethodReturn }
    }

    /// The type of a property as the argument of its setter.
    pub fn parse_property(ty: Inner, default_nullability: Nullability) -> (r: Ty)
        ensures
            r == (Ty {
                ty: ty.spec_with_default_nullability(default_nullability),
                kind: TyKind::MethodArgument,
            }),
    {
        Ty { ty: ty.with_default_nullability(default_nullability), kind: TyKind::MethodArgument }
    }

    /// Whether the type is the `typedef` named `s`.
    pub open spec fn spec_is_typedef_to(&self, s: Seq<char>) -> bool {
        self.ty matches Inner::TypeDef { name } && name@ == s
    }

    /// Whether the type is the `typedef` named `s`.
    pub fn is_typedef_to(&self, s: &String) -> (r: bool)
        ensures
            r == self.spec_is_typedef_to(s@),
    {
        match &self.ty {
            Inner::TypeDef { name } => *name == *s,
            _ => false,
        }
    }

    /// A copy of the type.
    pub fn duplicate(&self) -> (r: Self)
        ensures
            r == *self,
    {
        Ty { ty: self.ty.duplicate(), kind: self.kind }
    }
}

} // verus!
