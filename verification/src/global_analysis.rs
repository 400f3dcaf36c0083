//! Analyses that need all the statements of a file at once.
//!
//! Two things are done to each file. Methods of one class or protocol that
//! would get the same function name are told apart, and a `typedef` that
//! is followed at once by the enumeration it names is merged into that
//! enumeration.

use vstd::prelude::*;
use vstd::string::StringExecFns;
use crate::method::Method;
use crate::stmt::{File, Library, Stmt, same_methods_but_names};

verus! {

// ---------------------------------------------------------------------
// Function names
// ---------------------------------------------------------------------

/// What the choice of a method's function name depends on.
pub struct MethodName {
    /// The class or protocol that the method belongs to.
    pub owner: Seq<char>,
    /// The function name that the method came with.
    pub fn_name: Seq<char>,
    pub selector: Seq<char>,
    pub is_class: bool,
}

/// The methods of one statement, in order.
pub open spec fn group_names(stmt: Stmt) -> Seq<MethodName> {
    match stmt.methods() {
        Some(ms) => Seq::new(
            ms@.len(),
            |j: int|
                MethodName {
                    owner: stmt.owner(),
                    fn_name: ms@[j].fn_name@,
                    selector: ms@[j].selector@,
                    is_class: ms@[j].is_class,
                },
        ),
        None => Seq::empty(),
    }
}

/// The methods of the first `n` statements, in order.
pub open spec fn flat_names(stmts: Seq<Stmt>, n: int) -> Seq<MethodName>
    decreases n,
{
    if n <= 0 {
        Seq::empty()
    } else {
        flat_names(stmts, n - 1) + group_names(stmts[n - 1])
    }
}

/// Whether two methods belong to one class or protocol and came with one
/// function name.
pub open spec fn same_key(a: MethodName, b: MethodName) -> bool {
    a.owner == b.owner && a.fn_name == b.fn_name
}

/// The first position from `from` on, and at most `p`, whose method
/// clashes with the method at `p`.
pub open spec fn first_same(ms: Seq<MethodName>, p: int, from: int) -> int
    decreases p - from,
{
    if from >= p {
        p
    } else if same_key(ms[from], ms[p]) {
        from
    } else {
        first_same(ms, p, from + 1)
    }
}

/// `s` with every `from` replaced by the text `to`.
pub open spec fn replaced(s: Seq<char>, from: char, to: Seq<char>) -> Seq<char>
    decreases s.len(),
{
    if s.len() == 0 {
        Seq::empty()
    } else {
        replaced(s.drop_last(), from, to) + (if s.last() == from {
            to
        } else {
            seq![s.last()]
        })
    }
}

/// The function name that is made of a selector: each colon becomes an
/// underscore.
pub open spec fn underscored(selector: Seq<char>) -> Seq<char> {
    replaced(selector, ':', "_"@)
}

/// The function names after the method at `p` has been looked at. Where
/// it clashes with an earlier method, the first such method is the other
/// one. If exactly one of the two is a class method, that one gets the
/// suffix `_class`; otherwise both are named after their selectors.
pub open spec fn step(ms: Seq<MethodName>, names: Seq<Seq<char>>, p: int) -> Seq<Seq<char>> {
    let q = first_same(ms, p, 0);
    if q >= p {
        names
    } else if ms[p].is_class && !ms[q].is_class {
        names.update(p, names[p] + "_class"@)
    } else if !ms[p].is_class && ms[q].is_class {
        names.update(q, names[q] + "_class"@)
    } else {
        names.update(q, underscored(ms[q].selector)).update(p, underscored(ms[p].selector))
    }
}

/// The function names after the first `n` methods have been looked at, in
/// order.
pub open spec fn disambiguated(ms: Seq<MethodName>, n: int) -> Seq<Seq<char>>
    decreases n,
{
    if n <= 0 {
        Seq::new(ms.len(), |q: int| ms[q].fn_name)
    } else {
        step(ms, disambiguated(ms, n - 1), n - 1)
    }
}

/// Whether `after` holds the statements of `before` with the function
/// names of their methods told apart, and nothing else changed.
pub open spec fn disambiguates(before: Seq<Stmt>, after: Seq<Stmt>) -> bool {
    let ms = flat_names(before, before.len() as int);
    let names = disambiguated(ms, ms.len() as int);
    &&& after.len() == before.len()
    &&& forall|i: int| 0 <= i < before.len() ==> (#[trigger] before[i]).same_but_names(after[i])
    &&& forall|i: int, j: int|
        0 <= i < before.len() && before[i].methods() is Some && 0 <= j < before[i].methods()->0@.len()
            ==> (#[trigger] after[i].methods()->0@[j]).fn_name@ == names[flat_names(before, i).len()
            + j]
}

// ---------------------------------------------------------------------
// A typedef and its enumeration
// ---------------------------------------------------------------------

/// Whether `first` is a plain `typedef` that `second`, an enumeration of
/// that very type, takes up.
pub open spec fn absorbs(first: Stmt, second: Stmt) -> bool {
    &&& first matches Stmt::AliasDecl { id, kind, .. }
    &&& kind is None
    &&& second matches Stmt::EnumDecl { ty, .. }
    &&& ty.spec_is_typedef_to(id.name@)
}

/// The enumeration `decl` under the name and with the type of the
/// `typedef` `alias`.
pub open spec fn absorbed(alias: Stmt, decl: Stmt) -> Stmt {
    match (alias, decl) {
        (
            Stmt::AliasDecl { id, ty, .. },
            Stmt::EnumDecl { availability, kind, variants, sendable, .. },
        ) => Stmt::EnumDecl { id, availability, ty, kind, variants, sendable },
        _ => decl,
    }
}

/// The statements with each such `typedef` merged into its enumeration.
pub open spec fn merge_spec(stmts: Seq<Stmt>) -> Seq<Stmt>
    decreases stmts.len(),
{
    if stmts.len() == 0 {
        Seq::empty()
    } else if stmts.len() >= 2 && absorbs(stmts[0], stmts[1]) {
        seq![absorbed(stmts[0], stmts[1])] + merge_spec(stmts.subrange(2, stmts.len() as int))
    } else {
        seq![stmts[0]] + merge_spec(stmts.subrange(1, stmts.len() as int))
    }
}

/// Whether `after` is what the analysis makes of the statements `before`.
pub open spec fn updates(before: Seq<Stmt>, after: Seq<Stmt>) -> bool {
    exists|mid: Seq<Stmt>| #[trigger] disambiguates(before, mid) && after == merge_spec(mid)
}

// ---------------------------------------------------------------------
// Facts about positions
// ---------------------------------------------------------------------

proof fn lemma_first_same_bounds(ms: Seq<MethodName>, p: int, from: int)
    requires
        0 <= from <= p < ms.len(),
    ensures
        from <= first_same(ms, p, from) <= p,
        first_same(ms, p, from) < p ==> same_key(ms[first_same(ms, p, from)], ms[p]),
        forall|r: int| from <= r < first_same(ms, p, from) ==> !same_key(#[trigger] ms[r], ms[p]),
    decreases p - from,
{
    if from < p && !same_key(ms[from], ms[p]) {
        lemma_first_same_bounds(ms, p, from + 1);
    }
}

proof fn lemma_first_same_is(ms: Seq<MethodName>, p: int, q: int, from: int)
    requires
        0 <= from <= q <= p < ms.len(),
        q < p ==> same_key(ms[q], ms[p]),
        forall|r: int| from <= r < q ==> !same_key(#[trigger] ms[r], ms[p]),
    ensures
        first_same(ms, p, from) == q,
    decreases q - from,
{
    if from < q {
        assert(!same_key(ms[from], ms[p]));
        lemma_first_same_is(ms, p, q, from + 1);
    }
}

proof fn lemma_flat_names_grow(stmts: Seq<Stmt>, i: int, n: int)
    requires
        0 <= i <= n <= stmts.len(),
    ensures
        flat_names(stmts, i).len() <= flat_names(stmts, n).len(),
        forall|q: int|
            0 <= q < flat_names(stmts, i).len() ==> #[trigger] flat_names(stmts, n)[q]
                == flat_names(stmts, i)[q],
    decreases n - i,
{
    if i < n {
        lemma_flat_names_grow(stmts, i, n - 1);
    }
}

/// The method `j` of statement `i` stands at position
/// `flat_names(stmts, i).len() + j` among all methods.
proof fn lemma_flat_names_at(stmts: Seq<Stmt>, i: int, j: int)
    requires
        0 <= i < stmts.len(),
        stmts[i].methods() is Some,
        0 <= j < stmts[i].methods()->0@.len(),
    ensures
        flat_names(stmts, i).len() + j < flat_names(stmts, i + 1).len(),
        flat_names(stmts, i + 1).len() <= flat_names(stmts, stmts.len() as int).len(),
        flat_names(stmts, stmts.len() as int)[flat_names(stmts, i).len() + j] == (MethodName {
            owner: stmts[i].owner(),
            fn_name: stmts[i].methods()->0@[j].fn_name@,
            selector: stmts[i].methods()->0@[j].selector@,
            is_class: stmts[i].methods()->0@[j].is_class,
        }),
{
    lemma_flat_names_grow(stmts, i + 1, stmts.len() as int);
    assert(flat_names(stmts, i + 1) == flat_names(stmts, i) + group_names(stmts[i]));
    assert(flat_names(stmts, i + 1)[flat_names(stmts, i).len() + j] == group_names(stmts[i])[j]);
}

proof fn lemma_disambiguated_len(ms: Seq<MethodName>, n: int)
    requires
        0 <= n <= ms.len(),
    ensures
        disambiguated(ms, n).len() == ms.len(),
        forall|q: int| n <= q < ms.len() ==> #[trigger] disambiguated(ms, n)[q] == ms[q].fn_name,
    decreases n,
{
    if n > 0 {
        lemma_disambiguated_len(ms, n - 1);
        lemma_first_same_bounds(ms, n - 1, 0);
    }
}

// ---------------------------------------------------------------------
// Reading and renaming methods in place
// ---------------------------------------------------------------------

/// The number of methods that a statement declares.
fn method_count(stmt: &Stmt) -> (n: usize)
    ensures
        stmt.methods() matches Some(ms) ==> n == ms@.len(),
        stmt.methods() is None ==> n == 0,
{
    match stmt {
        Stmt::ExternMethods { methods, .. } => methods.len(),
        Stmt::ExternCategory { methods, .. } => methods.len(),
        Stmt::ProtocolDecl { methods, .. } => methods.len(),
        _ => 0,
    }
}

/// The name of the class or protocol whose methods a statement declares.
fn owner_name(stmt: &Stmt) -> (r: &String)
    requires
        stmt.methods() is Some,
    ensures
        r@ == stmt.owner(),
{
    match stmt {
        Stmt::ExternMethods { cls, .. } => &cls.name,
        Stmt::ExternCategory { cls, .. } => &cls.name,
        Stmt::ProtocolDecl { id, .. } => &id.name,
        Stmt::ClassDecl { id, .. } => &id.name,
        Stmt::EnumDecl { id, .. } => &id.name,
        Stmt::AliasDecl { id, .. } => &id.name,
    }
}

/// The method `j` of a statement.
fn method_at(stmt: &Stmt, j: usize) -> (r: &Method)
    requires
        stmt.methods() matches Some(ms) && j < ms@.len(),
    ensures
        *r == stmt.methods()->0@[j as int],
{
    match stmt {
        Stmt::ExternMethods { methods, .. } => &methods[j],
        Stmt::ExternCategory { methods, .. } => &methods[j],
        Stmt::ProtocolDecl { methods, .. } => &methods[j],
        _ => vstd::pervasive::unreached(),
    }
}

/// Gives the method `j` of statement `i` the function name `name`.
fn set_fn_name(stmts: &mut Vec<Stmt>, i: usize, j: usize, name: String)
    requires
        i < old(stmts).len(),
        old(stmts)[i as int].methods() matches Some(ms) && j < ms@.len(),
    ensures
        final(stmts).len() == old(stmts).len(),
        forall|k: int| 0 <= k < old(stmts).len() && k != i ==> final(stmts)[k] == old(stmts)[k],
        old(stmts)[i as int].same_but_names(final(stmts)[i as int]),
        forall|l: int|
            0 <= l < old(stmts)[i as int].methods()->0@.len() && l != j ==> final(stmts)[i as int].methods()->0@[l] == old(stmts)[i as int].methods()->0@[l],
        final(stmts)[i as int].methods()->0@[j as int].fn_name == name,
{
    match &mut stmts[i] {
        Stmt::ExternMethods { methods, .. } => {
            methods[j].fn_name = name;
        },
        Stmt::ExternCategory { methods, .. } => {
            methods[j].fn_name = name;
        },
        Stmt::ProtocolDecl { methods, .. } => {
            methods[j].fn_name = name;
        },
        _ => {},
    }
}

/// `s` with every `from` replaced by the text `to`: `str::replace` of the
/// standard library, for a pattern that is one character. It is stated
/// here, and not proved, that every occurrence of the character is
/// replaced and everything else is kept in order.
#[verifier::external_body]
fn replace_char(s: &str, from: char, to: &str) -> (r: String)
    ensures
        r@ == replaced(s@, from, to@),
{
    s.replace(from, to)
}

/// The first method that clashed with none before it, as the search for
/// clashes needs it.
struct First {
    owner: String,
    name: String,
    stmt: usize,
    method: usize,
    flat: Ghost<int>,
}

/// Whether `firsts` holds exactly the methods before position `p` that
/// clash with none before them.
spec fn firsts_cover(firsts: Seq<First>, stmts: Seq<Stmt>, ms: Seq<MethodName>, p: int) -> bool {
    &&& forall|k: int|
        0 <= k < firsts.len() ==> {
            let e = #[trigger] firsts[k];
            &&& 0 <= e.flat@ < p
            &&& e.stmt < stmts.len()
            &&& stmts[e.stmt as int].methods() is Some
            &&& e.method < stmts[e.stmt as int].methods()->0@.len()
            &&& e.flat@ == flat_names(stmts, e.stmt as int).len() + e.method
            &&& e.owner@ == ms[e.flat@].owner
            &&& e.name@ == ms[e.flat@].fn_name
            &&& first_same(ms, e.flat@, 0) == e.flat@
        }
    &&& forall|q: int|
        0 <= q < p && #[trigger] first_same(ms, q, 0) == q ==> exists|k: int|
            0 <= k < firsts.len() && (#[trigger] firsts[k]).flat@ == q
}

/// Whether the statements `cur` are the statements `before` with the
/// function names `names`.
spec fn carries(before: Seq<Stmt>, cur: Seq<Stmt>, names: Seq<Seq<char>>) -> bool {
    &&& cur.len() == before.len()
    &&& forall|i: int| 0 <= i < before.len() ==> (#[trigger] before[i]).same_but_names(cur[i])
    &&& forall|i: int, j: int|
        0 <= i < before.len() && before[i].methods() is Some && 0 <= j < before[i].methods()->0@.len()
            ==> (#[trigger] cur[i].methods()->0@[j]).fn_name@ == names[flat_names(before, i).len()
            + j]
}

proof fn lemma_positions_differ(stmts: Seq<Stmt>, i: int, j: int, k: int, l: int)
    requires
        0 <= i < stmts.len(),
        0 <= k < stmts.len(),
        stmts[i].methods() is Some,
        stmts[k].methods() is Some,
        0 <= j < stmts[i].methods()->0@.len(),
        0 <= l < stmts[k].methods()->0@.len(),
        i != k || j != l,
    ensures
        flat_names(stmts, i).len() + j != flat_names(stmts, k).len() + l,
{
    lemma_flat_names_at(stmts, i, j);
    lemma_flat_names_at(stmts, k, l);
    if i < k {
        lemma_flat_names_grow(stmts, i + 1, k);
    } else if k < i {
        lemma_flat_names_grow(stmts, k + 1, i);
    }
}

/// Renaming the method `j` of statement `i` keeps the statements in step
/// with the names.
proof fn lemma_carries_update(
    before: Seq<Stmt>,
    cur: Seq<Stmt>,
    next: Seq<Stmt>,
    names: Seq<Seq<char>>,
    i: int,
    j: int,
    name: Seq<char>,
)
    requires
        carries(before, cur, names),
        names.len() == flat_names(before, before.len() as int).len(),
        0 <= i < before.len(),
        before[i].methods() is Some,
        0 <= j < before[i].methods()->0@.len(),
        next.len() == cur.len(),
        forall|k: int| 0 <= k < cur.len() && k != i ==> next[k] == cur[k],
        cur[i].same_but_names(next[i]),
        forall|l: int|
            0 <= l < cur[i].methods()->0@.len() && l != j ==> next[i].methods()->0@[l]
                == cur[i].methods()->0@[l],
        next[i].methods()->0@[j].fn_name@ == name,
    ensures
        carries(before, next, names.update(flat_names(before, i).len() + j, name)),
{
    let p = flat_names(before, i).len() + j;
    let updated = names.update(p, name);
    lemma_flat_names_at(before, i, j);
    assert(before[i].same_but_names(cur[i]));
    assert forall|k: int| 0 <= k < before.len() implies (#[trigger] before[k]).same_but_names(
        next[k],
    ) by {
        assert(before[k].same_but_names(cur[k]));
        if k == i {
            let a = before[i].methods()->0@;
            let b = cur[i].methods()->0@;
            let c = next[i].methods()->0@;
            assert(same_methods_but_names(a, b));
            assert(same_methods_but_names(b, c));
            assert forall|l: int| 0 <= l < a.len() implies (#[trigger] a[l]).same_but_name(
                &c[l],
            ) by {
                assert(a[l].same_but_name(&b[l]));
                assert(b[l].same_but_name(&c[l]));
            }
        }
    }
    assert forall|k: int, l: int|
        0 <= k < before.len() && before[k].methods() is Some && 0 <= l < before[k].methods()->0@.len() implies (
    #[trigger] next[k].methods()->0@[l]).fn_name@ == updated[flat_names(before, k).len() + l] by {
        lemma_flat_names_at(before, k, l);
        assert(before[k].same_but_names(cur[k]));
        assert(cur[k].methods()->0@[l].fn_name@ == names[flat_names(before, k).len() + l]);
        if k != i || l != j {
            lemma_positions_differ(before, i, j, k, l);
        }
    }
}

/// Tells apart the methods of one class or protocol that came with the
/// same function name.
pub fn disambiguate_names(file: &mut File)
    ensures
        disambiguates(old(file).stmts@, final(file).stmts@),
{
    let ghost before = file.stmts@;
    let ghost ms = flat_names(before, before.len() as int);
    let ghost mut names = disambiguated(ms, 0);
    let mut firsts: Vec<First> = Vec::new();
    let mut i: usize = 0;
    proof {
        lemma_disambiguated_len(ms, 0);
        assert forall|i: int, j: int|
            0 <= i < before.len() && before[i].methods() is Some && 0 <= j
                < before[i].methods()->0@.len() implies (
        #[trigger] before[i].methods()->0@[j]).fn_name@ == names[flat_names(before, i).len()
            + j] by {
            lemma_flat_names_at(before, i, j);
        }
    }
    while i < file.stmts.len()
        invariant
            i <= file.stmts.len(),
            before == old(file).stmts@,
            ms == flat_names(before, before.len() as int),
            names == disambiguated(ms, flat_names(before, i as int).len() as int),
            names.len() == ms.len(),
            carries(before, file.stmts@, names),
            firsts_cover(firsts@, before, ms, flat_names(before, i as int).len() as int),
        decreases file.stmts.len() - i,
    {
        let count = method_count(&file.stmts[i]);
        let mut j: usize = 0;
        proof {
            assert(before[i as int].same_but_names(file.stmts@[i as int]));
            lemma_flat_names_grow(before, i as int + 1, before.len() as int);
        }
        while j < count
            invariant
                i < file.stmts.len(),
                j <= count,
                before == old(file).stmts@,
                ms == flat_names(before, before.len() as int),
                before[i as int].methods() is Some ==> count == before[i as int].methods()->0@.len(),
                before[i as int].methods() is None ==> count == 0,
                names == disambiguated(ms, flat_names(before, i as int).len() + j),
                names.len() == ms.len(),
                flat_names(before, i as int).len() + count == flat_names(before, i as int + 1).len(),
                flat_names(before, i as int + 1).len() <= ms.len(),
                carries(before, file.stmts@, names),
                firsts_cover(firsts@, before, ms, flat_names(before, i as int).len() + j),
            decreases count - j,
        {
            let ghost p = flat_names(before, i as int).len() + j;
            proof {
                lemma_flat_names_at(before, i as int, j as int);
                assert(before[i as int].same_but_names(file.stmts@[i as int]));
                lemma_disambiguated_len(ms, p);
                lemma_first_same_bounds(ms, p, 0);
            }
            // Look for the first method that this one clashes with.
            let mut k: usize = 0;
            let mut found: Option<usize> = None;
            while k < firsts.len() && found.is_none()
                invariant
                    k <= firsts.len(),
                    i < file.stmts.len(),
                    file.stmts@.len() == before.len(),
                    0 <= p < ms.len(),
                    before[i as int].methods() is Some,
                    j < before[i as int].methods()->0@.len(),
                    before[i as int].same_but_names(file.stmts@[i as int]),
                    file.stmts@[i as int].methods()->0@[j as int].fn_name@ == ms[p].fn_name,
                    file.stmts@[i as int].owner() == ms[p].owner,
                    firsts_cover(firsts@, before, ms, p),
                    found matches Some(at) ==> at < firsts.len() && same_key(
                        ms[firsts@[at as int].flat@],
                        ms[p],
                    ),
                    found is None ==> forall|t: int|
                        0 <= t < k ==> !same_key(ms[(#[trigger] firsts@[t]).flat@], ms[p]),
                decreases firsts.len() - k + (if found is None {
                    1int
                } else {
                    0int
                }),
            {
                let stmt = &file.stmts[i];
                let method = method_at(stmt, j);
                let entry = &firsts[k];
                if entry.owner == *owner_name(stmt) && entry.name == method.fn_name {
                    found = Some(k);
                } else {
                    k = k + 1;
                }
            }
            match found {
                None => {
                    proof {
                        // No earlier method clashes with this one.
                        let q = first_same(ms, p, 0);
                        if q < p {
                            lemma_first_same_bounds(ms, q, 0);
                            assert forall|r: int| 0 <= r < q implies !same_key(
                                #[trigger] ms[r],
                                ms[q],
                            ) by {
                                assert(!same_key(ms[r], ms[p]));
                            }
                            lemma_first_same_is(ms, q, q, 0);
                            let t = choose|t: int|
                                0 <= t < firsts@.len() && (#[trigger] firsts@[t]).flat@ == q;
                            assert(!same_key(ms[firsts@[t].flat@], ms[p]));
                        }
                        assert(step(ms, names, p) == names);
                    }
                    let stmt = &file.stmts[i];
                    let method = method_at(stmt, j);
                    let entry = First {
                        owner: owner_name(stmt).clone(),
                        name: method.fn_name.clone(),
                        stmt: i,
                        method: j,
                        flat: Ghost(p),
                    };
                    let ghost earlier = firsts@;
                    firsts.push(entry);
                    proof {
                        assert forall|q: int|
                            0 <= q < p + 1 && #[trigger] first_same(ms, q, 0) == q implies exists|
                            k: int,
                        |
                            0 <= k < firsts@.len() && (#[trigger] firsts@[k]).flat@ == q by {
                            if q < p {
                                let t = choose|t: int|
                                    0 <= t < earlier.len() && (#[trigger] earlier[t]).flat@ == q;
                                assert(firsts@[t].flat@ == q);
                            } else {
                                assert(firsts@[earlier.len() as int].flat@ == q);
                            }
                        }
                        assert forall|k: int| 0 <= k < firsts@.len() implies 0 <= (
                        #[trigger] firsts@[k]).flat@ < p + 1 by {
                            if k < earlier.len() {
                                assert(firsts@[k] == earlier[k]);
                            }
                        }
                    }
                },
                Some(at) => {
                    let other_stmt = firsts[at].stmt;
                    let other_method = firsts[at].method;
                    let ghost q = firsts@[at as int].flat@;
                    proof {
                        lemma_first_same_bounds(ms, q, 0);
                        assert forall|r: int| 0 <= r < q implies !same_key(
                            #[trigger] ms[r],
                            ms[p],
                        ) by {
                            assert(!same_key(ms[r], ms[q]));
                        }
                        lemma_first_same_is(ms, p, q, 0);
                        lemma_flat_names_at(before, other_stmt as int, other_method as int);
                        assert(before[other_stmt as int].same_but_names(
                            file.stmts@[other_stmt as int],
                        ));
                    }
                    let is_class = method_at(&file.stmts[i], j).is_class;
                    let other_is_class = method_at(
                        &file.stmts[other_stmt],
                        other_method,
                    ).is_class;
                    if is_class && !other_is_class {
                        let mut name = method_at(&file.stmts[i], j).fn_name.clone();
                        name.append("_class");
                        let ghost cur = file.stmts@;
                        set_fn_name(&mut file.stmts, i, j, name);
                        proof {
                            lemma_carries_update(
                                before,
                                cur,
                                file.stmts@,
                                names,
                                i as int,
                                j as int,
                                name@,
                            );
                            names = names.update(p, name@);
                        }
                    } else if !is_class && other_is_class {
                        let mut name = method_at(
                            &file.stmts[other_stmt],
                            other_method,
                        ).fn_name.clone();
                        name.append("_class");
                        let ghost cur = file.stmts@;
                        set_fn_name(&mut file.stmts, other_stmt, other_method, name);
                        proof {
                            lemma_carries_update(
                                before,
                                cur,
                                file.stmts@,
                                names,
                                other_stmt as int,
                                other_method as int,
                                name@,
                            );
                            names = names.update(q, name@);
                        }
                    } else {
                        let other_name = replace_char(
                            method_at(&file.stmts[other_stmt], other_method).selector.as_str(),
                            ':',
                            "_",
                        );
                        let ghost cur = file.stmts@;
                        set_fn_name(&mut file.stmts, other_stmt, other_method, other_name);
                        proof {
                            lemma_carries_update(
                                before,
                                cur,
                                file.stmts@,
                                names,
                                other_stmt as int,
                                other_method as int,
                                other_name@,
                            );
                            names = names.update(q, other_name@);
                        }
                        let name = replace_char(
                            method_at(&file.stmts[i], j).selector.as_str(),
                            ':',
                            "_",
                        );
                        let ghost cur2 = file.stmts@;
                        set_fn_name(&mut file.stmts, i, j, name);
                        proof {
                            lemma_carries_update(
                                before,
                                cur2,
                                file.stmts@,
                                names,
                                i as int,
                                j as int,
                                name@,
                            );
                            names = names.update(p, name@);
                        }
                    }
                    proof {
                        assert forall|t: int| 0 <= t < firsts@.len() implies 0 <= (
                        #[trigger] firsts@[t]).flat@ < p + 1 by {}
                        assert forall|r: int|
                            0 <= r < p + 1 && #[trigger] first_same(ms, r, 0) == r implies exists|
                            k: int,
                        |
                            0 <= k < firsts@.len() && (#[trigger] firsts@[k]).flat@ == r by {
                            assert(r < p);
                        }
                    }
                },
            }
            j = j + 1;
        }
        i = i + 1;
    }
}

// ---------------------------------------------------------------------
// Merging
// ---------------------------------------------------------------------

/// Whether `first` is a plain `typedef` that `second`, an enumeration of
/// that very type, takes up.
fn absorbs_exec(first: &Stmt, second: &Stmt) -> (r: bool)
    ensures
        r == absorbs(*first, *second),
{
    match first {
        Stmt::AliasDecl { id, kind, .. } => {
            if kind.is_some() {
                return false;
            }
            match second {
                Stmt::EnumDecl { ty, .. } => ty.is_typedef_to(&id.name),
                _ => false,
            }
        },
        _ => false,
    }
}

/// The enumeration `decl` under the name and with the type of the
/// `typedef` `alias`.
fn absorb(alias: Stmt, decl: Stmt) -> (r: Stmt)
    ensures
        r == absorbed(alias, decl),
{
    match alias {
        Stmt::AliasDecl { id, availability: _, ty, kind: _ } => {
            match decl {
                Stmt::EnumDecl { id: _, availability, ty: _, kind, variants, sendable } => {
                    Stmt::EnumDecl { id, availability, ty, kind, variants, sendable }
                },
                other => other,
            }
        },
        _ => decl,
    }
}

/// Merges each plain `typedef` that is followed at once by an enumeration
/// of that very type into the enumeration: the enumeration takes the name
/// and the type of the `typedef`, and the `typedef` goes.
pub fn merge_typedef_enums(file: &mut File)
    ensures
        final(file).stmts@ == merge_spec(old(file).stmts@),
{
    let ghost before = file.stmts@;
    // The statements still to be looked at, the next one last.
    let mut stack: Vec<Stmt> = Vec::new();
    let mut source: Vec<Stmt> = Vec::new();
    std::mem::swap(&mut file.stmts, &mut source);
    while source.len() > 0
        invariant
            source.len() + stack.len() == before.len(),
            forall|k: int| 0 <= k < source.len() ==> source@[k] == before[k],
            forall|k: int| 0 <= k < stack.len() ==> stack@[k] == before[before.len() - 1 - k],
            file.stmts@.len() == 0,
        decreases source.len(),
    {
        let stmt = source.pop().unwrap();
        stack.push(stmt);
    }
    let ghost mut rest = before;
    while stack.len() > 0
        invariant
            stack.len() == rest.len(),
            forall|k: int| 0 <= k < stack.len() ==> stack@[k] == rest[rest.len() - 1 - k],
            file.stmts@ + merge_spec(rest) == merge_spec(before),
        decreases stack.len(),
    {
        let stmt = stack.pop().unwrap();
        assert(stmt == rest[0]);
        let ghost done = file.stmts@;
        if stack.len() > 0 && absorbs_exec(&stmt, &stack[stack.len() - 1]) {
            let decl = stack.pop().unwrap();
            assert(decl == rest[1]);
            let merged = absorb(stmt, decl);
            file.stmts.push(merged);
            proof {
                let tail = rest.subrange(2, rest.len() as int);
                assert(done + (seq![merged] + merge_spec(tail)) =~= file.stmts@ + merge_spec(tail));
                assert forall|k: int| 0 <= k < stack.len() implies stack@[k] == tail[tail.len() - 1
                    - k] by {
                    assert(stack@[k] == rest[rest.len() - 1 - k]);
                }
                rest = tail;
            }
        } else {
            file.stmts.push(stmt);
            proof {
                let tail = rest.subrange(1, rest.len() as int);
                assert(done + (seq![stmt] + merge_spec(tail)) =~= file.stmts@ + merge_spec(tail));
                assert forall|k: int| 0 <= k < stack.len() implies stack@[k] == tail[tail.len() - 1
                    - k] by {
                    assert(stack@[k] == rest[rest.len() - 1 - k]);
                }
                rest = tail;
            }
        }
    }
    assert(file.stmts@ + Seq::<Stmt>::empty() =~= file.stmts@);
}

// ---------------------------------------------------------------------
// The analysis
// ---------------------------------------------------------------------

/// Runs the analysis on one file.
pub fn update_file(file: &mut File)
    ensures
        updates(old(file).stmts@, final(file).stmts@),
{
    disambiguate_names(file);
    let ghost mid = file.stmts@;
    merge_typedef_enums(file);
    assert(disambiguates(old(file).stmts@, mid) && file.stmts@ == merge_spec(mid));
}

/// Runs the analysis on every file of the library. The files keep their
/// names and their order.
pub fn global_analysis(library: &mut Library)
    ensures
        old(library).wf() ==> final(library).wf(),
        final(library).files@.len() == old(library).files@.len(),
        forall|i: int|
            0 <= i < old(library).files@.len() ==> {
                &&& (#[trigger] final(library).files@[i]).name == old(library).files@[i].name
                &&& updates(old(library).files@[i].file.stmts@, final(library).files@[i].file.stmts@)
            },
{
    let mut i: usize = 0;
    while i < library.files.len()
        invariant
            library.files@.len() == old(library).files@.len(),
            i <= library.files.len(),
            forall|k: int|
                0 <= k < i ==> {
                    &&& (#[trigger] library.files@[k]).name == old(library).files@[k].name
                    &&& updates(old(library).files@[k].file.stmts@, library.files@[k].file.stmts@)
                },
            forall|k: int|
                i <= k < library.files@.len() ==> #[trigger] library.files@[k] == old(library).files@[k],
        decreases library.files.len() - i,
    {
        update_file(&mut library.files[i].file);
        i = i + 1;
    }
}

} // verus!
