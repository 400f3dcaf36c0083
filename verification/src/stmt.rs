//! The statements, files and libraries that bindings are generated for.

use vstd::prelude::*;
use crate::availability::Availability;
use crate::id::ItemIdentifier;
use crate::method::Method;
use crate::rust_type::Ty;

verus! {

/// An attribute that says which kind of enumeration a declaration is.
#[derive(Clone, Copy, Debug, PartialEq, Eq, Hash, Structural)]
pub enum UnexposedAttr {
    Enum,
    Options,
    ClosedEnum,
    ErrorEnum,
}

/// One enumerator: its name and its value.
#[derive(Debug, PartialEq, Eq)]
pub struct EnumVariant {
    pub name: String,
    pub value: i64,
}

/// One declaration of a header file.
#[derive(Debug, PartialEq, Eq)]
pub enum Stmt {
    /// A class.
    ClassDecl { id: ItemIdentifier, availability: Availability, superclasses: Vec<ItemIdentifier> },
    /// The methods that a class declares itself.
    ExternMethods { cls: ItemIdentifier, methods: Vec<Method> },
    /// The methods that a category adds to a class.
    ExternCategory { id: ItemIdentifier, cls: ItemIdentifier, methods: Vec<Method> },
    /// A protocol.
    ProtocolDecl {
        id: ItemIdentifier,
        availability: Availability,
        protocols: Vec<ItemIdentifier>,
        methods: Vec<Method>,
    },
    /// An enumeration.
    EnumDecl {
        id: ItemIdentifier,
        availability: Availability,
        ty: Ty,
        kind: Option<UnexposedAttr>,
        variants: Vec<EnumVariant>,
        sendable: Option<bool>,
    },
    /// A `typedef`.
    AliasDecl { id: ItemIdentifier, availability: Availability, ty: Ty, kind: Option<UnexposedAttr> },
}

/// The statements of one header file.
#[derive(Debug, PartialEq, Eq)]
pub struct File {
    pub stmts: Vec<Stmt>,
}

/// One file of a library, under its name.
#[derive(Debug, PartialEq, Eq)]
pub struct NamedFile {
    pub name: String,
    pub file: File,
}

/// The files of a library, each under its name.
#[derive(Debug, PartialEq, Eq)]
pub struct Library {
    pub files: Vec<NamedFile>,
}

impl Library {
    /// Whether every file stands under a name of its own.
    pub open spec fn wf(&self) -> bool {
        forall|i: int, j: int|
            0 <= i < j < self.files@.len() ==> (#[trigger] self.files@[i]).name@ != (
            #[trigger] self.files@[j]).name@
    }
}

impl Stmt {
    /// The methods of a statement that declares methods.
    pub open spec fn methods(self) -> Option<Vec<Method>> {
        match self {
            Stmt::ExternMethods { methods, .. } => Some(methods),
            Stmt::ExternCategory { methods, .. } => Some(methods),
            Stmt::ProtocolDecl { methods, .. } => Some(methods),
            _ => None,
        }
    }

    /// The name under which the methods of the statement are grouped:
    /// that of the class, or that of the protocol.
    pub open spec fn owner(self) -> Seq<char> {
        match self {
            Stmt::ExternMethods { cls, .. } => cls.name@,
            Stmt::ExternCategory { cls, .. } => cls.name@,
            Stmt::ProtocolDecl { id, .. } => id.name@,
            _ => Seq::empty(),
        }
    }

    /// Whether `other` is this statement with, at most, other function
    /// names for its methods.
    pub open spec fn same_but_names(self, other: Stmt) -> bool {
        match (self, other) {
            (Stmt::ExternMethods { cls, methods }, Stmt::ExternMethods { cls: c2, methods: m2 }) => {
                cls == c2 && same_methods_but_names(methods@, m2@)
            },
            (
                Stmt::ExternCategory { id, cls, methods },
                Stmt::ExternCategory { id: i2, cls: c2, methods: m2 },
            ) => { id == i2 && cls == c2 && same_methods_but_names(methods@, m2@) },
            (
                Stmt::ProtocolDecl { id, availability, protocols, methods },
                Stmt::ProtocolDecl { id: i2, availability: a2, protocols: p2, methods: m2 },
            ) => {
                id == i2 && availability == a2 && protocols == p2 && same_methods_but_names(
                    methods@,
                    m2@,
                )
            },
            _ => self.methods() is None && self == other,
        }
    }
}

/// Whether `b` holds the methods of `a`, in order, each with, at most,
/// another function name.
pub open spec fn same_methods_but_names(a: Seq<Method>, b: Seq<Method>) -> bool {
    &&& a.len() == b.len()
    &&& forall|j: int| 0 <= j < a.len() ==> (#[trigger] a[j]).same_but_name(&b[j])
}

} // verus!
