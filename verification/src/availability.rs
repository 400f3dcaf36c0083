//! Platform availability of a declaration.

use vstd::prelude::*;
use crate::id::copy_optional_string;

verus! {

/// A version number `x.y.z`.
#[derive(Clone, Copy, Debug, PartialEq, Eq, Hash, Structural)]
pub struct Version {
    pub x: u32,
    pub y: Option<u32>,
    pub z: Option<u32>,
}

/// The availability of a declaration on one platform.
#[derive(Debug, PartialEq, Eq)]
pub struct PlatformAvailability {
    /// The name of the platform.
    pub platform: String,
    /// Whether the declaration is unavailable on the platform.
    pub unavailable: bool,
    /// The version that introduced the declaration, if any.
    pub introduced: Option<Version>,
    /// The version that deprecated the declaration, if any.
    pub deprecated: Option<Version>,
    /// The version that removed the declaration, if any.
    pub obsoleted: Option<Version>,
    /// A message for users, such as the replacement to use.
    pub message: Option<String>,
}

impl PlatformAvailability {
    /// A copy of the record.
    pub fn duplicate(&self) -> (r: Self)
        ensures
            r == *self,
    {
        PlatformAvailability {
            platform: self.platform.clone(),
            unavailable: self.unavailable,
            introduced: self.introduced,
            deprecated: self.deprecated,
            obsoleted: self.obsoleted,
            message: copy_optional_string(&self.message),
        }
    }
}

/// The availability of a declaration: one record for each platform on
/// which it is known.
#[derive(Debug, PartialEq, Eq)]
pub struct Availability {
    inner: Vec<PlatformAvailability>,
}

impl View for Availability {
    type V = Seq<PlatformAvailability>;

    closed spec fn view(&self) -> Seq<PlatformAvailability> {
        self.inner@
    }
}

impl Availability {
    /// The availability that the given platform records state.
    pub fn parse(availability: Vec<PlatformAvailability>) -> (r: Self)
        ensures
            r@ == availability@,
    {
        Availability { inner: availability }
    }

    /// The number of platform records.
    pub fn len(&self) -> (n: usize)
        ensures
            n == self@.len(),
    {
        self.inner.len()
    }

    /// The record at position `i`, if there is one.
    pub fn get(&self, i: usize) -> (r: Option<&PlatformAvailability>)
        ensures
            match r {
                Some(record) => i < self@.len() && *record == self@[i as int],
                None => i >= self@.len(),
            },
    {
        if i < self.inner.len() {
            Some(&self.inner[i])
        } else {
            None
        }
    }

    /// A copy of the availability.
    pub fn duplicate(&self) -> (r: Self)
        ensures
            r@ == self@,
    {
        let mut out: Vec<PlatformAvailability> = Vec::new();
        let mut i: usize = 0;
        while i < self.inner.len()
            invariant
                i <= self.inner.len(),
                out@ == self.inner@.subrange(0, i as int),
            decreases self.inner.len() - i,
        {
            out.push(self.inner[i].duplicate());
            i = i + 1;
            assert(out@ =~= self.inner@.subrange(0, i as int));
        }
        assert(self.inner@.subrange(0, self.inner.len() as int) =~= self.inner@);
        Availability { inner: out }
    }
}

} // verus!
