//! The methods that bindings are generated for.

use vstd::prelude::*;
use crate::availability::Availability;
use crate::rust_type::Ty;

verus! {

/// A qualifier on a method's argument or result.
#[derive(Clone, Copy, Debug, PartialEq, Eq, Hash, Structural)]
pub enum Qualifier {
    In,
    Inout,
    Out,
    Bycopy,
    Byref,
    Oneway,
}

/// How the result of a method is managed.
#[derive(Clone, Copy, Debug, PartialEq, Eq, Hash, Structural)]
pub enum MemoryManagement {
    /// The result follows the naming conventions.
    Normal,
    /// The result points into the receiver.
    ReturnsInnerPointer,
}

/// What the configuration says of one method.
#[derive(Clone, Copy, Debug, PartialEq, Eq, Structural)]
pub struct MethodData {
    /// The method takes `&mut self`.
    pub mutating: bool,
    /// The method is not safe to call.
    pub unsafe_: bool,
    /// The method is left out.
    pub skipped: bool,
}

/// One argument of a method: its name, its qualifier and its type.
#[derive(Debug, PartialEq, Eq)]
pub struct Argument {
    pub name: String,
    pub qualifier: Option<Qualifier>,
    pub ty: Ty,
}

/// A method of a class, category or protocol.
#[derive(Debug, PartialEq, Eq)]
pub struct Method {
    pub selector: String,
    pub fn_name: String,
    pub availability: Availability,
    pub is_class: bool,
    pub is_optional_protocol: bool,
    pub memory_management: MemoryManagement,
    pub designated_initializer: bool,
    pub arguments: Vec<Argument>,
    pub result_type: Ty,
    pub safe: bool,
    pub mutating: bool,
}

impl Method {
    /// Whether `other` is this method under another function name.
    pub open spec fn same_but_name(&self, other: &Method) -> bool {
        &&& self.selector == other.selector
        &&& self.availability == other.availability
        &&& self.is_class == other.is_class
        &&& self.is_optional_protocol == other.is_optional_protocol
        &&& self.memory_management == other.memory_management
        &&& self.designated_initializer == other.designated_initializer
        &&& self.arguments == other.arguments
        &&& self.result_type == other.result_type
        &&& self.safe == other.safe
        &&& self.mutating == other.mutating
    }
}

} // verus!
