//! Selectors: the names of methods. A selector is interned once for each
//! spelling, and the number of arguments it takes is the number of colons
//! in its name.

use vstd::prelude::*;
use crate::bytes::{bytes_eq, copy_bytes};

verus! {

/// An interned selector: its place in the table that interned it.
#[derive(Clone, Copy, Debug, PartialEq, Eq, Hash, Structural)]
pub struct Sel(pub usize);

/// What the name of a selector says of the result's ownership.
#[derive(Clone, Copy, Debug, PartialEq, Eq, Hash, Structural)]
pub enum Family {
    /// The name begins with `alloc`, `new`, `copy` or `mutableCopy`: the
    /// caller owns the result outright.
    Owned,
    /// Any other name: the caller does not own the result, and retains it
    /// to keep it beyond the current autorelease scope.
    Borrowed,
}

/// The number of colons in `name[..n]`.
pub open spec fn colons(name: Seq<u8>, n: int) -> nat
    decreases n,
{
    if n <= 0 {
        0
    } else {
        colons(name, n - 1) + (if name[n - 1] == 58 {
            1nat
        } else {
            0nat
        })
    }
}

/// The number of arguments that a selector of this name takes.
pub open spec fn arity_spec(name: Seq<u8>) -> nat {
    colons(name, name.len() as int)
}

/// Whether `name` begins with `prefix`.
pub open spec fn begins_with(name: Seq<u8>, prefix: Seq<u8>) -> bool {
    prefix.len() <= name.len() && name.subrange(0, prefix.len() as int) == prefix
}

/// The bytes of `alloc`.
pub open spec fn word_alloc() -> Seq<u8> {
    seq![97u8, 108u8, 108u8, 111u8, 99u8]
}

/// The bytes of `new`.
pub open spec fn word_new() -> Seq<u8> {
    seq![110u8, 101u8, 119u8]
}

/// The bytes of `copy`.
pub open spec fn word_copy() -> Seq<u8> {
    seq![99u8, 111u8, 112u8, 121u8]
}

/// The bytes of `mutableCopy`.
pub open spec fn word_mutable_copy() -> Seq<u8> {
    seq![109u8, 117u8, 116u8, 97u8, 98u8, 108u8, 101u8, 67u8, 111u8, 112u8, 121u8]
}

/// The family of a selector of this name.
pub open spec fn family_spec(name: Seq<u8>) -> Family {
    if begins_with(name, word_alloc()) || begins_with(name, word_new()) || begins_with(
        name,
        word_copy(),
    ) || begins_with(name, word_mutable_copy()) {
        Family::Owned
    } else {
        Family::Borrowed
    }
}

/// The number of arguments that a selector of this name takes.
pub fn arity(name: &Vec<u8>) -> (n: usize)
    ensures
        n == arity_spec(name@),
{
    let mut count: usize = 0;
    let mut i: usize = 0;
    while i < name.len()
        invariant
            i <= name.len(),
            count == colons(name@, i as int),
            count <= i,
        decreases name.len() - i,
    {
        if name[i] == 58 {
            count = count + 1;
        }
        i = i + 1;
    }
    count
}

/// Whether `name` begins with the bytes of `prefix`.
fn begins_with_exec(name: &Vec<u8>, prefix: &[u8]) -> (r: bool)
    ensures
        r == begins_with(name@, prefix@),
{
    if prefix.len() > name.len() {
        return false;
    }
    let mut i: usize = 0;
    while i < prefix.len()
        invariant
            i <= prefix.len() <= name.len(),
            forall|k: int| 0 <= k < i ==> name@[k] == prefix@[k],
        decreases prefix.len() - i,
    {
        if name[i] != prefix[i] {
            assert(name@.subrange(0, prefix.len() as int)[i as int] != prefix@[i as int]);
            return false;
        }
        i = i + 1;
    }
    assert(name@.subrange(0, prefix.len() as int) =~= prefix@);
    true
}

/// The family of a selector of this name.
pub fn family(name: &Vec<u8>) -> (r: Family)
    ensures
        r == family_spec(name@),
{
    let alloc: [u8; 5] = [97, 108, 108, 111, 99];
    let new: [u8; 3] = [110, 101, 119];
    let copy: [u8; 4] = [99, 111, 112, 121];
    let mutable_copy: [u8; 11] = [109, 117, 116, 97, 98, 108, 101, 67, 111, 112, 121];
    assert(alloc@ =~= word_alloc());
    assert(new@ =~= word_new());
    assert(copy@ =~= word_copy());
    assert(mutable_copy@ =~= word_mutable_copy());
    if begins_with_exec(name, alloc.as_slice()) || begins_with_exec(name, new.as_slice())
        || begins_with_exec(name, copy.as_slice()) || begins_with_exec(
        name,
        mutable_copy.as_slice(),
    ) {
        Family::Owned
    } else {
        Family::Borrowed
    }
}

/// The selectors that have been interned, each spelling once.
pub struct SelectorTable {
    names: Vec<Vec<u8>>,
}

impl View for SelectorTable {
    type V = Seq<Seq<u8>>;

    closed spec fn view(&self) -> Seq<Seq<u8>> {
        Seq::new(self.names@.len(), |i: int| self.names@[i]@)
    }
}

impl SelectorTable {
    /// No spelling stands twice in the table.
    pub open spec fn wf(&self) -> bool {
        forall|i: int, j: int|
            0 <= i < j < self@.len() ==> #[trigger] self@[i] != #[trigger] self@[j]
    }

    /// An empty table.
    pub fn new() -> (r: Self)
        ensures
            r@.len() == 0,
            r.wf(),
    {
        SelectorTable { names: Vec::new() }
    }

    /// The selector of this spelling, if it has been interned.
    pub fn find(&self, name: &Vec<u8>) -> (r: Option<Sel>)
        requires
            self.wf(),
        ensures
            match r {
                Some(sel) => {
                    &&& sel.0 < self@.len()
                    &&& self@[sel.0 as int] == name@
                    &&& forall|i: int| 0 <= i < self@.len() && self@[i] == name@ ==> i == sel.0
                },
                None => !self@.contains(name@),
            },
    {
        let mut i: usize = 0;
        while i < self.names.len()
            invariant
                self.wf(),
                i <= self.names.len(),
                forall|k: int| 0 <= k < i ==> self@[k] != name@,
            decreases self.names.len() - i,
        {
            if bytes_eq(&self.names[i], name) {
                assert(self@[i as int] == name@);
                assert forall|k: int| 0 <= k < self@.len() && self@[k] == name@ implies k == i by {
                    if k < i {
                        assert(self@[k] != self@[i as int]);
                    } else if k > i {
                        assert(self@[i as int] != self@[k]);
                    }
                }
                return Some(Sel(i));
            }
            i = i + 1;
        }
        None
    }

    /// Interns the spelling `name`: gives the selector it was interned
    /// under before, or a new one. Selectors that were handed out before
    /// keep their names.
    pub fn intern(&mut self, name: &Vec<u8>) -> (sel: Sel)
        requires
            old(self).wf(),
        ensures
            final(self).wf(),
            sel.0 < final(self)@.len(),
            final(self)@[sel.0 as int] == name@,
            forall|i: int| 0 <= i < final(self)@.len() && final(self)@[i] == name@ ==> i == sel.0,
            old(self)@.contains(name@) ==> final(self)@ == old(self)@,
            !old(self)@.contains(name@) ==> final(self)@ == old(self)@.push(name@),
    {
        match self.find(name) {
            Some(sel) => sel,
            None => {
                let at = self.names.len();
                let ghost before = self@;
                self.names.push(copy_bytes(name));
                proof {
                    assert(self@ =~= before.push(name@));
                    assert forall|i: int| 0 <= i < self@.len() && self@[i] == name@ implies i
                        == at by {
                        if i < at {
                            assert(before[i] == name@);
                        }
                    }
                }
                Sel(at)
            },
        }
    }

    /// The name of an interned selector.
    pub fn name(&self, sel: Sel) -> (r: Option<&Vec<u8>>)
        ensures
            match r {
                Some(name) => sel.0 < self@.len() && name@ == self@[sel.0 as int],
                None => sel.0 >= self@.len(),
            },
    {
        if sel.0 < self.names.len() {
            Some(&self.names[sel.0])
        } else {
            None
        }
    }

    /// The number of selectors that have been interned.
    pub fn len(&self) -> (n: usize)
        ensures
            n == self@.len(),
    {
        self.names.len()
    }
}

} // verus!
