//! Identifiers of the items that bindings are generated for.

use vstd::prelude::*;

verus! {

/// The name of a declaration and where it was declared.
#[derive(Debug, PartialEq, Eq)]
pub struct ItemIdentifier {
    /// The name of the item.
    pub name: String,
    /// The library that declares it.
    pub library: String,
    /// The file within the library, where it is known.
    pub file_name: Option<String>,
}

/// A copy of an optional string.
pub fn copy_optional_string(s: &Option<String>) -> (r: Option<String>)
    ensures
        r == *s,
{
    match s {
        Some(text) => Some(text.clone()),
        None => None,
    }
}

impl ItemIdentifier {
    /// A copy of the identifier.
    pub fn duplicate(&self) -> (r: Self)
        ensures
            r == *self,
    {
        ItemIdentifier {
            name: self.name.clone(),
            library: self.library.clone(),
            file_name: copy_optional_string(&self.file_name),
        }
    }
}

} // verus!
