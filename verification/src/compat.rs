//! Agreement of encodings. A struct or union may be known under several
//! names; an alias table says which name each alias stands for. Two
//! encodings are compatible when they are equal once every alias has been
//! replaced by the name it stands for, and two signatures match when they
//! have the same length and are compatible position by position.

use vstd::prelude::*;
use crate::bytes::{bytes_eq, copy_bytes};
use crate::encoding::{Encoding, EncodingView, Primitive, views_of, lemma_view_aggregate};

verus! {

/// One alias: `name` stands for `target`.
pub struct Alias {
    pub name: Vec<u8>,
    pub target: Vec<u8>,
}

/// The aliases that are in force. A later definition of a name replaces an
/// earlier one.
pub struct AliasTable {
    entries: Vec<Alias>,
}

/// The map that a list of definitions sets up.
pub open spec fn alias_map(entries: Seq<Alias>) -> Map<Seq<u8>, Seq<u8>>
    decreases entries.len(),
{
    if entries.len() == 0 {
        Map::empty()
    } else {
        alias_map(entries.drop_last()).insert(entries.last().name@, entries.last().target@)
    }
}

/// The name that `name` stands for.
pub open spec fn resolve_name(aliases: Map<Seq<u8>, Seq<u8>>, name: Seq<u8>) -> Seq<u8> {
    if aliases.dom().contains(name) {
        aliases[name]
    } else {
        name
    }
}

/// `e` with every struct and union name replaced by the name it stands
/// for.
pub open spec fn resolve(e: EncodingView, aliases: Map<Seq<u8>, Seq<u8>>) -> EncodingView
    decreases e,
{
    match e {
        EncodingView::Primitive(p) => EncodingView::Primitive(p),
        EncodingView::Pointer(t) => EncodingView::Pointer(Box::new(resolve(*t, aliases))),
        EncodingView::Array(n, t) => EncodingView::Array(n, Box::new(resolve(*t, aliases))),
        EncodingView::Aggregate(union, name, fields) => EncodingView::Aggregate(
            union,
            resolve_name(aliases, name),
            Seq::new(
                fields.len(),
                |i: int|
                    if 0 <= i < fields.len() {
                        resolve(fields[i], aliases)
                    } else {
                        EncodingView::Primitive(Primitive::Void)
                    },
            ),
        ),
    }
}

/// Whether two encodings are structurally equal after aliases are
/// resolved.
pub open spec fn compatible(a: EncodingView, b: EncodingView, aliases: Map<Seq<u8>, Seq<u8>>)
    -> bool {
    resolve(a, aliases) == resolve(b, aliases)
}

/// Whether a call site's encodings agree with a declared signature: the
/// same number of components, compatible position by position.
pub open spec fn signatures_match(
    declared: Seq<EncodingView>,
    actual: Seq<EncodingView>,
    aliases: Map<Seq<u8>, Seq<u8>>,
) -> bool {
    &&& declared.len() == actual.len()
    &&& forall|i: int|
        0 <= i < declared.len() ==> compatible(#[trigger] declared[i], actual[i], aliases)
}

impl View for AliasTable {
    type V = Map<Seq<u8>, Seq<u8>>;

    closed spec fn view(&self) -> Map<Seq<u8>, Seq<u8>> {
        alias_map(self.entries@)
    }
}

impl AliasTable {
    /// A table without aliases.
    pub fn new() -> (r: Self)
        ensures
            r@ == Map::<Seq<u8>, Seq<u8>>::empty(),
    {
        AliasTable { entries: Vec::new() }
    }

    /// Lets `name` stand for `target` from now on.
    pub fn define(&mut self, name: Vec<u8>, target: Vec<u8>)
        ensures
            final(self)@ == old(self)@.insert(name@, target@),
    {
        self.entries.push(Alias { name, target });
        assert(self.entries@.drop_last() =~= old(self).entries@);
    }

    /// The position of the definition of `name` that is in force.
    fn find(&self, name: &Vec<u8>) -> (r: Option<usize>)
        ensures
            match r {
                Some(i) => i < self.entries.len() && self@.dom().contains(name@) && self@[name@]
                    == self.entries[i as int].target@,
                None => !self@.dom().contains(name@),
            },
    {
        let mut i: usize = self.entries.len();
        assert(self.entries@.subrange(0, i as int) =~= self.entries@);
        while i > 0
            invariant
                i <= self.entries.len(),
                self@.dom().contains(name@) <==> alias_map(
                    self.entries@.subrange(0, i as int),
                ).dom().contains(name@),
                self@.dom().contains(name@) ==> self@[name@] == alias_map(
                    self.entries@.subrange(0, i as int),
                )[name@],
            decreases i,
        {
            let ghost prefix = self.entries@.subrange(0, i as int);
            assert(prefix.drop_last() =~= self.entries@.subrange(0, i as int - 1));
            assert(prefix.last() == self.entries@[i as int - 1]);
            i = i - 1;
            if bytes_eq(&self.entries[i].name, name) {
                return Some(i);
            }
        }
        None
    }

    /// The name that `name` stands for.
    pub fn resolve_name(&self, name: &Vec<u8>) -> (r: Vec<u8>)
        ensures
            r@ == resolve_name(self@, name@),
    {
        match self.find(name) {
            Some(i) => copy_bytes(&self.entries[i].target),
            None => copy_bytes(name),
        }
    }

    /// Whether `a` and `b` stand for the same name.
    fn same_name(&self, a: &Vec<u8>, b: &Vec<u8>) -> (r: bool)
        ensures
            r == (resolve_name(self@, a@) == resolve_name(self@, b@)),
    {
        let ra = self.find(a);
        let rb = self.find(b);
        match ra {
            Some(i) => match rb {
                Some(j) => bytes_eq(&self.entries[i].target, &self.entries[j].target),
                None => bytes_eq(&self.entries[i].target, b),
            },
            None => match rb {
                Some(j) => bytes_eq(a, &self.entries[j].target),
                None => bytes_eq(a, b),
            },
        }
    }

    /// Whether `a` and `b` are structurally equal after aliases are
    /// resolved.
    pub fn compatible(&self, a: &Encoding, b: &Encoding) -> (r: bool)
        ensures
            r == compatible(a@, b@, self@),
        decreases a,
    {
        match a {
            Encoding::Primitive(p) => match b {
                Encoding::Primitive(q) => *p == *q,
                _ => {
                    proof {
                        lemma_view_aggregate(*b);
                    }
                    false
                },
            },
            Encoding::Pointer(t) => match b {
                Encoding::Pointer(u) => self.compatible(t, u),
                _ => {
                    proof {
                        lemma_view_aggregate(*b);
                    }
                    false
                },
            },
            Encoding::Array(n, t) => match b {
                Encoding::Array(m, u) => *n == *m && self.compatible(t, u),
                _ => {
                    proof {
                        lemma_view_aggregate(*b);
                    }
                    false
                },
            },
            Encoding::Struct(name, fields) => {
                proof {
                    lemma_view_aggregate(*a);
                    lemma_view_aggregate(*b);
                }
                match b {
                    Encoding::Struct(other, others) => {
                        proof {
                            lemma_compatible_aggregates(
                                false,
                                name@,
                                views_of(fields@),
                                false,
                                other@,
                                views_of(others@),
                                self@,
                            );
                        }
                        self.same_name(name, other) && self.all_compatible(a, fields, others)
                    },
                    _ => false,
                }
            },
            Encoding::Union(name, fields) => {
                proof {
                    lemma_view_aggregate(*a);
                    lemma_view_aggregate(*b);
                }
                match b {
                    Encoding::Union(other, others) => {
                        proof {
                            lemma_compatible_aggregates(
                                true,
                                name@,
                                views_of(fields@),
                                true,
                                other@,
                                views_of(others@),
                                self@,
                            );
                        }
                        self.same_name(name, other) && self.all_compatible(a, fields, others)
                    },
                    _ => false,
                }
            },
        }
    }

    /// Whether the fields of the aggregate `owner` agree with `others`.
    fn all_compatible(&self, owner: &Encoding, fields: &Vec<Encoding>, others: &Vec<Encoding>)
        -> (r: bool)
        requires
            (owner matches Encoding::Struct(_, fs) && fs == fields) || (owner matches Encoding::Union(
                _,
                fs,
            ) && fs == fields),
        ensures
            r == signatures_match(views_of(fields@), views_of(others@), self@),
        decreases owner, 0int,
    {
        if fields.len() != others.len() {
            return false;
        }
        let mut i: usize = 0;
        while i < fields.len()
            invariant
                fields.len() == others.len(),
                i <= fields.len(),
                (owner matches Encoding::Struct(_, fs) && fs == fields) || (
                owner matches Encoding::Union(_, fs) && fs == fields),
                forall|k: int|
                    0 <= k < i ==> compatible(
                        #[trigger] views_of(fields@)[k],
                        views_of(others@)[k],
                        self@,
                    ),
            decreases fields.len() - i,
        {
            if !self.compatible(&fields[i], &others[i]) {
                assert(!compatible(views_of(fields@)[i as int], views_of(others@)[i as int], self@));
                return false;
            }
            i = i + 1;
        }
        true
    }

    /// Whether a call site's encodings agree with a declared signature.
    pub fn matches(&self, declared: &Vec<Encoding>, actual: &Vec<Encoding>) -> (r: bool)
        ensures
            r == signatures_match(views_of(declared@), views_of(actual@), self@),
    {
        if declared.len() != actual.len() {
            return false;
        }
        let mut i: usize = 0;
        while i < declared.len()
            invariant
                declared.len() == actual.len(),
                i <= declared.len(),
                forall|k: int|
                    0 <= k < i ==> compatible(
                        #[trigger] views_of(declared@)[k],
                        views_of(actual@)[k],
                        self@,
                    ),
            decreases declared.len() - i,
        {
            if !self.compatible(&declared[i], &actual[i]) {
                assert(!compatible(
                    views_of(declared@)[i as int],
                    views_of(actual@)[i as int],
                    self@,
                ));
                return false;
            }
            i = i + 1;
        }
        true
    }
}

/// Resolved aggregates are equal exactly when kind and resolved name are
/// equal and the fields match as signatures.
pub proof fn lemma_compatible_aggregates(
    union_a: bool,
    name_a: Seq<u8>,
    fields_a: Seq<EncodingView>,
    union_b: bool,
    name_b: Seq<u8>,
    fields_b: Seq<EncodingView>,
    aliases: Map<Seq<u8>, Seq<u8>>,
)
    ensures
        compatible(
            EncodingView::Aggregate(union_a, name_a, fields_a),
            EncodingView::Aggregate(union_b, name_b, fields_b),
            aliases,
        ) <==> (union_a == union_b && resolve_name(aliases, name_a) == resolve_name(
            aliases,
            name_b,
        ) && signatures_match(fields_a, fields_b, aliases)),
{
    let a = EncodingView::Aggregate(union_a, name_a, fields_a);
    let b = EncodingView::Aggregate(union_b, name_b, fields_b);
    match (resolve(a, aliases), resolve(b, aliases)) {
        (EncodingView::Aggregate(_, _, ra), EncodingView::Aggregate(_, _, rb)) => {
            if signatures_match(fields_a, fields_b, aliases) {
                assert(ra =~= rb);
            }
            if ra == rb {
                assert(ra.len() == rb.len());
                assert forall|i: int| 0 <= i < fields_a.len() implies compatible(
                    #[trigger] fields_a[i],
                    fields_b[i],
                    aliases,
                ) by {
                    assert(ra[i] == rb[i]);
                }
            }
        },
        _ => {},
    }
}

/// Signatures of one length whose components are equal, position by
/// position, once aliases are resolved, match.
pub proof fn lemma_equal_after_resolution_matches(
    declared: Seq<EncodingView>,
    actual: Seq<EncodingView>,
    aliases: Map<Seq<u8>, Seq<u8>>,
)
    requires
        declared.len() == actual.len(),
        forall|i: int|
            0 <= i < declared.len() ==> resolve(#[trigger] declared[i], aliases) == resolve(
                actual[i],
                aliases,
            ),
    ensures
        signatures_match(declared, actual, aliases),
{
}

/// Signatures that differ in length, or in some component after aliases
/// are resolved, do not match.
pub proof fn lemma_difference_does_not_match(
    declared: Seq<EncodingView>,
    actual: Seq<EncodingView>,
    aliases: Map<Seq<u8>, Seq<u8>>,
)
    requires
        declared.len() != actual.len() || exists|i: int|
            0 <= i < declared.len() && i < actual.len() && resolve(
                #[trigger] declared[i],
                aliases,
            ) != resolve(actual[i], aliases),
    ensures
        !signatures_match(declared, actual, aliases),
{
}

/// Compatibility is reflexive and symmetric, and it is transitive.
pub proof fn lemma_compatible_is_equivalence(
    a: EncodingView,
    b: EncodingView,
    c: EncodingView,
    aliases: Map<Seq<u8>, Seq<u8>>,
)
    ensures
        compatible(a, a, aliases),
        compatible(a, b, aliases) ==> compatible(b, a, aliases),
        compatible(a, b, aliases) && compatible(b, c, aliases) ==> compatible(a, c, aliases),
{
}

} // verus!
