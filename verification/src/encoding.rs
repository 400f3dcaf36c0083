//! Type encodings: the descriptors of a value's shape that are exchanged
//! with the runtime, their textual grammar, and the test for agreement
//! between a declared signature and a call site.
//!
//! The grammar, over bytes:
//!
//! ```text
//! enc   := leaf | '^' enc | '[' digits enc ']'
//!        | '{' name '=' enc* '}' | '(' name '=' enc* ')'
//! leaf  := one of  c s i l q C S I L Q f d B v * @ # : ?   or  "@?"
//! ```
//!
//! `digits` is a non-empty run of decimal digits whose value fits in 64
//! bits; `name` is a possibly empty run of letters, digits, `_` and `?`.
//! The canonical form of a well-formed text writes every array length
//! without leading zeros.

use vstd::prelude::*;

verus! {

/// The kinds of value that have no component encodings.
#[derive(Clone, Copy, Debug, PartialEq, Eq, Hash, Structural)]
pub enum Primitive {
    Char,
    Short,
    Int,
    Long,
    LongLong,
    UChar,
    UShort,
    UInt,
    ULong,
    ULongLong,
    Float,
    Double,
    Bool,
    Void,
    String,
    Object,
    Block,
    Class,
    Sel,
    Unknown,
}

/// The shape of a value that crosses the boundary to the runtime.
#[derive(Debug, PartialEq, Eq)]
pub enum Encoding {
    Primitive(Primitive),
    /// A pointer to a value of the given shape.
    Pointer(Box<Encoding>),
    /// A fixed number of elements of one shape.
    Array(u64, Box<Encoding>),
    /// A named struct and its fields, in declaration order.
    Struct(Vec<u8>, Vec<Encoding>),
    /// A named union and its members, in declaration order.
    Union(Vec<u8>, Vec<Encoding>),
}

/// The mathematical value of an [`Encoding`]. A struct is an aggregate
/// whose first component is `false`, a union one whose first component is
/// `true`.
pub enum EncodingView {
    Primitive(Primitive),
    Pointer(Box<EncodingView>),
    Array(u64, Box<EncodingView>),
    Aggregate(bool, Seq<u8>, Seq<EncodingView>),
}

/// The mathematical value of an encoding.
pub open spec fn view_of(e: Encoding) -> EncodingView
    decreases e,
{
    match e {
        Encoding::Primitive(p) => EncodingView::Primitive(p),
        Encoding::Pointer(t) => EncodingView::Pointer(Box::new(view_of(*t))),
        Encoding::Array(n, t) => EncodingView::Array(n, Box::new(view_of(*t))),
        Encoding::Struct(name, fields) => EncodingView::Aggregate(
            false,
            name@,
            Seq::new(
                fields.len() as nat,
                |i: int|
                    if 0 <= i < fields.len() {
                        view_of(fields[i])
                    } else {
                        EncodingView::Primitive(Primitive::Void)
                    },
            ),
        ),
        Encoding::Union(name, fields) => EncodingView::Aggregate(
            true,
            name@,
            Seq::new(
                fields.len() as nat,
                |i: int|
                    if 0 <= i < fields.len() {
                        view_of(fields[i])
                    } else {
                        EncodingView::Primitive(Primitive::Void)
                    },
            ),
        ),
    }
}

/// The views of a sequence of encodings, element by element.
pub open spec fn views_of(es: Seq<Encoding>) -> Seq<EncodingView> {
    Seq::new(es.len(), |i: int| view_of(es[i]))
}

impl View for Encoding {
    type V = EncodingView;

    open spec fn view(&self) -> EncodingView {
        view_of(*self)
    }
}

/// The view of a struct or union holds the views of its fields.
pub proof fn lemma_view_aggregate(e: Encoding)
    ensures
        e matches Encoding::Struct(name, fields) ==> e@ == EncodingView::Aggregate(
            false,
            name@,
            views_of(fields@),
        ),
        e matches Encoding::Union(name, fields) ==> e@ == EncodingView::Aggregate(
            true,
            name@,
            views_of(fields@),
        ),
{
    match e {
        Encoding::Struct(name, fields) => {
            match view_of(e) {
                EncodingView::Aggregate(_, _, fs) => {
                    assert(fs =~= views_of(fields@));
                },
                _ => {},
            }
        },
        Encoding::Union(name, fields) => {
            match view_of(e) {
                EncodingView::Aggregate(_, _, fs) => {
                    assert(fs =~= views_of(fields@));
                },
                _ => {},
            }
        },
        _ => {},
    }
}

// ---------------------------------------------------------------------
// Bytes of the grammar
// ---------------------------------------------------------------------

/// Whether `b` is a decimal digit.
pub open spec fn is_digit(b: u8) -> bool {
    48 <= b <= 57
}

/// Whether `b` may stand in the name of a struct or union: a letter, a
/// digit, `_` or `?`.
pub open spec fn is_name_byte(b: u8) -> bool {
    (65 <= b <= 90) || (97 <= b <= 122) || is_digit(b) || b == 95 || b == 63
}

/// The text of a leaf kind.
pub open spec fn code(p: Primitive) -> Seq<u8> {
    match p {
        Primitive::Char => seq![99u8],
        Primitive::Short => seq![115u8],
        Primitive::Int => seq![105u8],
        Primitive::Long => seq![108u8],
        Primitive::LongLong => seq![113u8],
        Primitive::UChar => seq![67u8],
        Primitive::UShort => seq![83u8],
        Primitive::UInt => seq![73u8],
        Primitive::ULong => seq![76u8],
        Primitive::ULongLong => seq![81u8],
        Primitive::Float => seq![102u8],
        Primitive::Double => seq![100u8],
        Primitive::Bool => seq![66u8],
        Primitive::Void => seq![118u8],
        Primitive::String => seq![42u8],
        Primitive::Object => seq![64u8],
        Primitive::Block => seq![64u8, 63u8],
        Primitive::Class => seq![35u8],
        Primitive::Sel => seq![58u8],
        Primitive::Unknown => seq![63u8],
    }
}

/// The leaf kind that a single byte other than `@` stands for.
pub open spec fn leaf_of_byte(b: u8) -> Option<Primitive> {
    if b == 99 {
        Some(Primitive::Char)
    } else if b == 115 {
        Some(Primitive::Short)
    } else if b == 105 {
        Some(Primitive::Int)
    } else if b == 108 {
        Some(Primitive::Long)
    } else if b == 113 {
        Some(Primitive::LongLong)
    } else if b == 67 {
        Some(Primitive::UChar)
    } else if b == 83 {
        Some(Primitive::UShort)
    } else if b == 73 {
        Some(Primitive::UInt)
    } else if b == 76 {
        Some(Primitive::ULong)
    } else if b == 81 {
        Some(Primitive::ULongLong)
    } else if b == 102 {
        Some(Primitive::Float)
    } else if b == 100 {
        Some(Primitive::Double)
    } else if b == 66 {
        Some(Primitive::Bool)
    } else if b == 118 {
        Some(Primitive::Void)
    } else if b == 42 {
        Some(Primitive::String)
    } else if b == 35 {
        Some(Primitive::Class)
    } else if b == 58 {
        Some(Primitive::Sel)
    } else if b == 63 {
        Some(Primitive::Unknown)
    } else {
        None
    }
}

/// The byte that closes an aggregate opened by `open`.
pub open spec fn closer(open: u8) -> u8 {
    if open == 123 {
        125
    } else {
        41
    }
}

// ---------------------------------------------------------------------
// Numbers
// ---------------------------------------------------------------------

/// The first position at or after `i` that holds no decimal digit.
pub open spec fn digits_end(s: Seq<u8>, i: int) -> int
    decreases s.len() - i,
{
    if 0 <= i < s.len() && is_digit(s[i]) {
        digits_end(s, i + 1)
    } else {
        i
    }
}

/// The number that the digits in `s[a..d]` write.
pub open spec fn number(s: Seq<u8>, a: int, d: int) -> nat
    decreases d - a,
{
    if d <= a {
        0
    } else {
        (number(s, a, d - 1) * 10 + (s[d - 1] - 48)) as nat
    }
}

/// The decimal digits of `v`, without leading zeros.
pub open spec fn decimal(v: nat) -> Seq<u8>
    decreases v,
{
    if v < 10 {
        seq![(48 + v) as u8]
    } else {
        decimal(v / 10).push((48 + v % 10) as u8)
    }
}

/// The first position at or after `i` that holds no byte of a name.
pub open spec fn name_end(s: Seq<u8>, i: int) -> int
    decreases s.len() - i,
{
    if 0 <= i < s.len() && is_name_byte(s[i]) {
        name_end(s, i + 1)
    } else {
        i
    }
}

// ---------------------------------------------------------------------
// Reading
// ---------------------------------------------------------------------

/// The encoding that starts at `pos`, with the position behind it, if one
/// starts there.
pub open spec fn parse_at(s: Seq<u8>, pos: int) -> Option<(EncodingView, int)>
    decreases s.len() - pos, 0int,
{
    if pos < 0 || pos >= s.len() {
        None
    } else if s[pos] == 94 {
        match parse_at(s, pos + 1) {
            Some((t, end)) => Some((EncodingView::Pointer(Box::new(t)), end)),
            None => None,
        }
    } else if s[pos] == 91 {
        let d = digits_end(s, pos + 1);
        if d <= pos + 1 || d > s.len() || number(s, pos + 1, d) > u64::MAX {
            None
        } else {
            match parse_at(s, d) {
                Some((t, end)) => if 0 <= end < s.len() && s[end] == 93 {
                    Some(
                        (
                            EncodingView::Array(number(s, pos + 1, d) as u64, Box::new(t)),
                            end + 1,
                        ),
                    )
                } else {
                    None
                },
                None => None,
            }
        }
    } else if s[pos] == 123 || s[pos] == 40 {
        let n = name_end(s, pos + 1);
        if n <= pos || n >= s.len() || s[n] != 61 {
            None
        } else {
            match parse_fields_at(s, n + 1, closer(s[pos])) {
                Some((fields, end)) => Some(
                    (EncodingView::Aggregate(s[pos] == 40, s.subrange(pos + 1, n), fields), end),
                ),
                None => None,
            }
        }
    } else if s[pos] == 64 {
        if pos + 1 < s.len() && s[pos + 1] == 63 {
            Some((EncodingView::Primitive(Primitive::Block), pos + 2))
        } else {
            Some((EncodingView::Primitive(Primitive::Object), pos + 1))
        }
    } else {
        match leaf_of_byte(s[pos]) {
            Some(p) => Some((EncodingView::Primitive(p), pos + 1)),
            None => None,
        }
    }
}

/// The encodings from `pos` up to the closing byte `close`, with the
/// position behind that byte.
pub open spec fn parse_fields_at(s: Seq<u8>, pos: int, close: u8) -> Option<
    (Seq<EncodingView>, int),
>
    decreases s.len() - pos, 1int,
{
    if pos < 0 || pos >= s.len() {
        None
    } else if s[pos] == close {
        Some((Seq::empty(), pos + 1))
    } else {
        match parse_at(s, pos) {
            Some((e, next)) => if next <= pos || next > s.len() {
                None
            } else {
                match parse_fields_at(s, next, close) {
                    Some((rest, end)) => Some((seq![e] + rest, end)),
                    None => None,
                }
            },
            None => None,
        }
    }
}

/// The encoding that the whole of `s` writes, if `s` is well formed.
pub open spec fn parse_spec(s: Seq<u8>) -> Option<EncodingView> {
    match parse_at(s, 0) {
        Some((e, end)) => if end == s.len() {
            Some(e)
        } else {
            None
        },
        None => None,
    }
}

// ---------------------------------------------------------------------
// Writing
// ---------------------------------------------------------------------

/// The canonical text of an encoding.
pub open spec fn serialize_spec(e: EncodingView) -> Seq<u8>
    decreases e, 0int,
{
    match e {
        EncodingView::Primitive(p) => code(p),
        EncodingView::Pointer(t) => seq![94u8] + serialize_spec(*t),
        EncodingView::Array(n, t) => seq![91u8] + decimal(n as nat) + serialize_spec(*t) + seq![
            93u8,
        ],
        EncodingView::Aggregate(union, name, fields) => seq![
            if union {
                40u8
            } else {
                123u8
            },
        ] + name + seq![61u8] + serialize_all(fields, 0) + seq![
            if union {
                41u8
            } else {
                125u8
            },
        ],
    }
}

/// The canonical texts of `fields[from..]`, one after the other.
pub open spec fn serialize_all(fields: Seq<EncodingView>, from: int) -> Seq<u8>
    decreases fields, 1int, fields.len() - from,
{
    if from < 0 || from >= fields.len() {
        Seq::empty()
    } else {
        serialize_spec(fields[from]) + serialize_all(fields, from + 1)
    }
}

// ---------------------------------------------------------------------
// Canonical text
// ---------------------------------------------------------------------

/// `s[i..j]` with the leading zeros of every array length removed.
pub open spec fn canonical_range(s: Seq<u8>, i: int, j: int) -> Seq<u8>
    decreases j - i, 0int,
{
    if i < 0 || i >= j || j > s.len() {
        Seq::empty()
    } else if s[i] == 91 {
        seq![91u8] + stripped_range(s, i + 1, j)
    } else {
        seq![s[i]] + canonical_range(s, i + 1, j)
    }
}

/// `s[i..j]` in canonical form, where `i` is behind an opening `[` and any
/// zeros that followed it.
pub open spec fn stripped_range(s: Seq<u8>, i: int, j: int) -> Seq<u8>
    decreases j - i, 1int,
{
    if 0 <= i && i + 1 < j && j <= s.len() && s[i] == 48 && is_digit(s[i + 1]) {
        stripped_range(s, i + 1, j)
    } else {
        canonical_range(s, i, j)
    }
}

/// The canonical form of the text `s`.
pub open spec fn canonicalize_spec(s: Seq<u8>) -> Seq<u8> {
    canonical_range(s, 0, s.len() as int)
}


// ---------------------------------------------------------------------
// Facts about the scanning functions
// ---------------------------------------------------------------------

proof fn lemma_digits_end(s: Seq<u8>, i: int)
    requires
        0 <= i <= s.len(),
    ensures
        i <= digits_end(s, i) <= s.len(),
        forall|k: int| i <= k < digits_end(s, i) ==> is_digit(#[trigger] s[k]),
        digits_end(s, i) < s.len() ==> !is_digit(s[digits_end(s, i)]),
    decreases s.len() - i,
{
    if i < s.len() && is_digit(s[i]) {
        lemma_digits_end(s, i + 1);
    }
}

proof fn lemma_digits_end_step(s: Seq<u8>, a: int, i: int)
    requires
        0 <= a <= i < s.len(),
        forall|k: int| a <= k <= i ==> is_digit(#[trigger] s[k]),
    ensures
        digits_end(s, a) == digits_end(s, i + 1),
    decreases i - a,
{
    if a < i {
        lemma_digits_end_step(s, a + 1, i);
    }
}

proof fn lemma_name_end(s: Seq<u8>, i: int)
    requires
        0 <= i <= s.len(),
    ensures
        i <= name_end(s, i) <= s.len(),
        forall|k: int| i <= k < name_end(s, i) ==> is_name_byte(#[trigger] s[k]),
        name_end(s, i) < s.len() ==> !is_name_byte(s[name_end(s, i)]),
    decreases s.len() - i,
{
    if i < s.len() && is_name_byte(s[i]) {
        lemma_name_end(s, i + 1);
    }
}

proof fn lemma_name_end_step(s: Seq<u8>, a: int, i: int)
    requires
        0 <= a <= i < s.len(),
        forall|k: int| a <= k <= i ==> is_name_byte(#[trigger] s[k]),
    ensures
        name_end(s, a) == name_end(s, i + 1),
    decreases i - a,
{
    if a < i {
        lemma_name_end_step(s, a + 1, i);
    }
}

proof fn lemma_number_grows(s: Seq<u8>, a: int, m: int, d: int)
    requires
        0 <= a <= m <= d <= s.len(),
        forall|k: int| a <= k < d ==> is_digit(#[trigger] s[k]),
    ensures
        number(s, a, m) <= number(s, a, d),
    decreases d - m,
{
    if m < d {
        lemma_number_grows(s, a, m, d - 1);
        assert(is_digit(s[d - 1]));
    }
}

/// An encoding that starts at `pos` ends behind `pos` and within the text;
/// so does a list of fields.
pub proof fn lemma_parse_advances(s: Seq<u8>, pos: int)
    ensures
        parse_at(s, pos) matches Some((_, end)) ==> 0 <= pos < end <= s.len(),
    decreases s.len() - pos, 0int,
{
    if pos < 0 || pos >= s.len() {
    } else if s[pos] == 94 {
        lemma_parse_advances(s, pos + 1);
    } else if s[pos] == 91 {
        let d = digits_end(s, pos + 1);
        if !(d <= pos + 1 || d > s.len() || number(s, pos + 1, d) > u64::MAX) {
            lemma_parse_advances(s, d);
        }
    } else if s[pos] == 123 || s[pos] == 40 {
        let n = name_end(s, pos + 1);
        if !(n <= pos || n >= s.len() || s[n] != 61) {
            lemma_fields_advance(s, n + 1, closer(s[pos]));
        }
    } else {
    }
}

/// A list of fields that starts at `pos` ends behind `pos` and within the
/// text.
pub proof fn lemma_fields_advance(s: Seq<u8>, pos: int, close: u8)
    ensures
        parse_fields_at(s, pos, close) matches Some((_, end)) ==> 0 <= pos < end <= s.len(),
    decreases s.len() - pos, 1int,
{
    if pos < 0 || pos >= s.len() {
    } else if s[pos] == close {
    } else {
        lemma_parse_advances(s, pos);
        match parse_at(s, pos) {
            Some((e, next)) => {
                if !(next <= pos || next > s.len()) {
                    lemma_fields_advance(s, next, close);
                }
            },
            None => {},
        }
    }
}

// ---------------------------------------------------------------------
// Reading, then writing, gives the canonical text
// ---------------------------------------------------------------------

proof fn lemma_plain_bytes_pass(s: Seq<u8>, a: int, d: int, j: int)
    requires
        0 <= a <= d <= j <= s.len(),
        forall|k: int| a <= k < d ==> #[trigger] s[k] != 91,
    ensures
        canonical_range(s, a, j) == s.subrange(a, d) + canonical_range(s, d, j),
    decreases d - a,
{
    if a < d {
        lemma_plain_bytes_pass(s, a + 1, d, j);
        assert(s[a] != 91);
        assert(seq![s[a]] + (s.subrange(a + 1, d) + canonical_range(s, d, j)) =~= s.subrange(a, d)
            + canonical_range(s, d, j));
    } else {
        assert(s.subrange(a, d) + canonical_range(s, d, j) =~= canonical_range(s, d, j));
    }
}

proof fn lemma_number_positive(s: Seq<u8>, a: int, m: int)
    requires
        0 <= a < m <= s.len(),
        forall|k: int| a <= k < m ==> is_digit(#[trigger] s[k]),
        s[a] != 48,
    ensures
        number(s, a, m) >= 1,
    decreases m - a,
{
    assert(is_digit(s[m - 1]));
    if m > a + 1 {
        lemma_number_positive(s, a, m - 1);
    } else {
        assert(number(s, a, a) == 0);
    }
}

proof fn lemma_number_leading_zero(s: Seq<u8>, a: int, d: int)
    requires
        0 <= a < d <= s.len(),
        s[a] == 48,
    ensures
        number(s, a, d) == number(s, a + 1, d),
    decreases d - a,
{
    if d > a + 1 {
        lemma_number_leading_zero(s, a, d - 1);
    } else {
        assert(number(s, a, a) == 0);
        assert(number(s, a + 1, a + 1) == 0);
    }
}

proof fn lemma_decimal_of_digits(s: Seq<u8>, a: int, d: int)
    requires
        0 <= a < d <= s.len(),
        forall|k: int| a <= k < d ==> is_digit(#[trigger] s[k]),
        s[a] != 48 || d == a + 1,
    ensures
        decimal(number(s, a, d)) == s.subrange(a, d),
    decreases d - a,
{
    assert(is_digit(s[d - 1]));
    if d == a + 1 {
        assert(number(s, a, a) == 0);
        assert(decimal(number(s, a, d)) =~= s.subrange(a, d));
    } else {
        lemma_number_positive(s, a, d - 1);
        lemma_decimal_of_digits(s, a, d - 1);
        let high = number(s, a, d - 1);
        let low = (s[d - 1] - 48) as nat;
        let whole = number(s, a, d);
        assert(whole == high * 10 + low);
        assert(whole / 10 == high && whole % 10 == low) by (nonlinear_arith)
            requires
                whole == high * 10 + low,
                low < 10,
        ;
        assert(decimal(whole) == decimal(high).push((48 + low) as u8));
        assert(s.subrange(a, d - 1).push(s[d - 1]) =~= s.subrange(a, d));
    }
}

proof fn lemma_stripped_digits(s: Seq<u8>, a: int, d: int, j: int)
    requires
        0 <= a < d < j <= s.len(),
        forall|k: int| a <= k < d ==> is_digit(#[trigger] s[k]),
        !is_digit(s[d]),
    ensures
        stripped_range(s, a, j) == decimal(number(s, a, d)) + canonical_range(s, d, j),
    decreases d - a,
{
    if s[a] == 48 && is_digit(s[a + 1]) {
        lemma_stripped_digits(s, a + 1, d, j);
        lemma_number_leading_zero(s, a, d);
    } else {
        assert forall|k: int| a <= k < d implies #[trigger] s[k] != 91 by {
            assert(is_digit(s[k]));
        }
        lemma_plain_bytes_pass(s, a, d, j);
        if s[a] == 48 {
            assert(d == a + 1) by {
                if d > a + 1 {
                    assert(is_digit(s[a + 1]));
                }
            }
        }
        lemma_decimal_of_digits(s, a, d);
    }
}

proof fn lemma_serialize_all_shift(e: EncodingView, rest: Seq<EncodingView>, k: int)
    requires
        0 <= k <= rest.len(),
    ensures
        serialize_all(seq![e] + rest, k + 1) == serialize_all(rest, k),
    decreases rest.len() - k,
{
    let whole = seq![e] + rest;
    if k < rest.len() {
        lemma_serialize_all_shift(e, rest, k + 1);
        assert(whole[k + 1] == rest[k]);
    }
}

/// The canonical form of the text from `i` on starts with the canonical
/// text of the encoding that is read at `i`, and goes on behind it.
proof fn lemma_canonical_parse(s: Seq<u8>, i: int, j: int)
    requires
        parse_at(s, i) is Some,
        (parse_at(s, i)->0).1 <= j <= s.len(),
    ensures
        canonical_range(s, i, j) == serialize_spec((parse_at(s, i)->0).0) + canonical_range(
            s,
            (parse_at(s, i)->0).1,
            j,
        ),
    decreases s.len() - i, 0int,
{
    lemma_parse_advances(s, i);
    let (e, end) = parse_at(s, i)->0;
    let tail = canonical_range(s, end, j);
    if s[i] == 94 {
        lemma_canonical_parse(s, i + 1, j);
        let t = (parse_at(s, i + 1)->0).0;
        assert(seq![94u8] + (serialize_spec(t) + tail) =~= (seq![94u8] + serialize_spec(t))
            + tail);
    } else if s[i] == 91 {
        let d = digits_end(s, i + 1);
        lemma_digits_end(s, i + 1);
        lemma_parse_advances(s, d);
        let (t, close_at) = parse_at(s, d)->0;
        lemma_stripped_digits(s, i + 1, d, j);
        lemma_canonical_parse(s, d, j);
        let n = number(s, i + 1, d);
        assert(canonical_range(s, close_at, j) == seq![93u8] + tail);
        assert(seq![91u8] + (decimal(n) + (serialize_spec(t) + (seq![93u8] + tail))) =~= (seq![
            91u8,
        ] + decimal(n) + serialize_spec(t) + seq![93u8]) + tail);
    } else if s[i] == 123 || s[i] == 40 {
        let n = name_end(s, i + 1);
        lemma_name_end(s, i + 1);
        let close = closer(s[i]);
        lemma_fields_advance(s, n + 1, close);
        let (fields, after) = parse_fields_at(s, n + 1, close)->0;
        assert forall|k: int| i + 1 <= k < n implies #[trigger] s[k] != 91 by {
            assert(is_name_byte(s[k]));
        }
        lemma_plain_bytes_pass(s, i + 1, n, j);
        lemma_canonical_fields(s, n + 1, j, close);
        let name = s.subrange(i + 1, n);
        let body = serialize_all(fields, 0);
        assert(canonical_range(s, n, j) == seq![61u8] + canonical_range(s, n + 1, j));
        assert(seq![s[i]] + (name + (seq![61u8] + (body + seq![close] + tail))) =~= (seq![s[i]]
            + name + seq![61u8] + body + seq![close]) + tail);
    } else if s[i] == 64 {
        if i + 1 < s.len() && s[i + 1] == 63 {
            assert(canonical_range(s, i + 1, j) == seq![63u8] + tail);
            assert(seq![64u8] + (seq![63u8] + tail) =~= seq![64u8, 63u8] + tail);
        }
    } else {
    }
}

proof fn lemma_canonical_fields(s: Seq<u8>, i: int, j: int, close: u8)
    requires
        parse_fields_at(s, i, close) is Some,
        (parse_fields_at(s, i, close)->0).1 <= j <= s.len(),
        close == 125 || close == 41,
    ensures
        canonical_range(s, i, j) == serialize_all((parse_fields_at(s, i, close)->0).0, 0) + seq![
            close,
        ] + canonical_range(s, (parse_fields_at(s, i, close)->0).1, j),
    decreases s.len() - i, 1int,
{
    lemma_fields_advance(s, i, close);
    let (fields, after) = parse_fields_at(s, i, close)->0;
    let tail = canonical_range(s, after, j);
    if s[i] == close {
        assert(serialize_all(fields, 0) + seq![close] + tail =~= seq![close] + tail);
    } else {
        lemma_parse_advances(s, i);
        let (e, next) = parse_at(s, i)->0;
        lemma_fields_advance(s, next, close);
        let (rest, after2) = parse_fields_at(s, next, close)->0;
        lemma_canonical_parse(s, i, j);
        lemma_canonical_fields(s, next, j, close);
        lemma_serialize_all_shift(e, rest, 0);
        assert(fields == seq![e] + rest);
        assert(fields[0] == e);
        assert(serialize_all(fields, 0) == serialize_spec(e) + serialize_all(rest, 0));
        assert(serialize_spec(e) + (serialize_all(rest, 0) + seq![close] + tail) =~= (
        serialize_spec(e) + serialize_all(rest, 0)) + seq![close] + tail);
    }
}

/// Reading a well-formed text and writing the encoding again gives the
/// canonical form of the text.
pub proof fn lemma_serialize_parse_is_canonical(s: Seq<u8>)
    requires
        parse_spec(s) is Some,
    ensures
        serialize_spec(parse_spec(s)->0) == canonicalize_spec(s),
{
    lemma_canonical_parse(s, 0, s.len() as int);
    let e = parse_spec(s)->0;
    assert(canonical_range(s, s.len() as int, s.len() as int) == Seq::<u8>::empty());
    assert(serialize_spec(e) + Seq::<u8>::empty() =~= serialize_spec(e));
}

// ---------------------------------------------------------------------
// Written text can be read again
// ---------------------------------------------------------------------

/// Whether a name holds bytes of names only.
pub open spec fn name_ok(name: Seq<u8>) -> bool {
    forall|k: int| 0 <= k < name.len() ==> is_name_byte(#[trigger] name[k])
}

/// Whether every struct and union in `e` has a name that the grammar
/// admits.
pub open spec fn well_formed(e: EncodingView) -> bool
    decreases e,
{
    match e {
        EncodingView::Primitive(_) => true,
        EncodingView::Pointer(t) => well_formed(*t),
        EncodingView::Array(_, t) => well_formed(*t),
        EncodingView::Aggregate(_, name, fields) => name_ok(name) && forall|i: int|
            0 <= i < fields.len() ==> well_formed(#[trigger] fields[i]),
    }
}

/// Whether the text of `e` ends with the code of an object, so that a `?`
/// behind it is read together with it as a block.
pub open spec fn ends_open(e: EncodingView) -> bool
    decreases e,
{
    match e {
        EncodingView::Primitive(p) => p == Primitive::Object,
        EncodingView::Pointer(t) => ends_open(*t),
        _ => false,
    }
}

proof fn lemma_split(s: Seq<u8>, i: int, a: Seq<u8>, b: Seq<u8>)
    requires
        0 <= i,
        i + a.len() + b.len() <= s.len(),
        s.subrange(i, i + a.len() + b.len()) == a + b,
    ensures
        s.subrange(i, i + a.len()) == a,
        s.subrange(i + a.len(), i + a.len() + b.len()) == b,
{
    let whole = s.subrange(i, i + a.len() + b.len());
    assert forall|k: int| 0 <= k < a.len() implies s[i + k] == a[k] by {
        assert(whole[k] == (a + b)[k]);
    }
    assert forall|k: int| 0 <= k < b.len() implies s[i + a.len() + k] == b[k] by {
        assert(whole[a.len() + k] == (a + b)[a.len() + k]);
    }
    assert(s.subrange(i, i + a.len()) =~= a);
    assert(s.subrange(i + a.len(), i + a.len() + b.len()) =~= b);
}

proof fn lemma_join(s: Seq<u8>, i: int, j: int, k: int)
    requires
        0 <= i <= j <= k <= s.len(),
    ensures
        s.subrange(i, j) + s.subrange(j, k) == s.subrange(i, k),
{
    assert(s.subrange(i, j) + s.subrange(j, k) =~= s.subrange(i, k));
}

proof fn lemma_decimal_is_digits(v: nat)
    ensures
        decimal(v).len() >= 1,
        forall|k: int| 0 <= k < decimal(v).len() ==> is_digit(#[trigger] decimal(v)[k]),
    decreases v,
{
    if v >= 10 {
        lemma_decimal_is_digits(v / 10);
    }
}

proof fn lemma_number_of_decimal(s: Seq<u8>, a: int, v: nat)
    requires
        0 <= a,
        a + decimal(v).len() <= s.len(),
        s.subrange(a, a + decimal(v).len()) == decimal(v),
    ensures
        number(s, a, a + decimal(v).len()) == v,
    decreases v,
{
    let m = decimal(v).len() as int;
    lemma_decimal_is_digits(v);
    assert(s[a + m - 1] == s.subrange(a, a + m)[m - 1]);
    if v >= 10 {
        lemma_decimal_is_digits(v / 10);
        let high = decimal(v / 10);
        assert(decimal(v) == high.push((48 + v % 10) as u8));
        assert(s.subrange(a, a + high.len()) =~= high) by {
            assert forall|k: int| 0 <= k < high.len() implies s[a + k] == high[k] by {
                assert(s.subrange(a, a + m)[k] == decimal(v)[k]);
            }
        }
        lemma_number_of_decimal(s, a, v / 10);
        assert(number(s, a, a + m) == number(s, a, a + m - 1) * 10 + (s[a + m - 1] - 48));
    } else {
        assert(number(s, a, a) == 0);
    }
}

proof fn lemma_digits_end_of_run(s: Seq<u8>, a: int, d: int)
    requires
        0 <= a < d <= s.len(),
        forall|k: int| a <= k < d ==> is_digit(#[trigger] s[k]),
        d < s.len() ==> !is_digit(s[d]),
    ensures
        digits_end(s, a) == d,
{
    lemma_digits_end_step(s, a, d - 1);
}

proof fn lemma_name_end_of_run(s: Seq<u8>, a: int, d: int)
    requires
        0 <= a <= d <= s.len(),
        forall|k: int| a <= k < d ==> is_name_byte(#[trigger] s[k]),
        d < s.len() ==> !is_name_byte(s[d]),
    ensures
        name_end(s, a) == d,
{
    if a < d {
        lemma_name_end_step(s, a, d - 1);
    }
}

/// The text of an encoding is not empty, begins with no digit and no
/// closing byte, and begins with `?` only where it is the unknown kind.
proof fn lemma_first_byte(e: EncodingView)
    ensures
        serialize_spec(e).len() >= 1,
        !is_digit(serialize_spec(e)[0]),
        serialize_spec(e)[0] != 125,
        serialize_spec(e)[0] != 41,
        serialize_spec(e)[0] != 93,
        serialize_spec(e)[0] == 63 ==> e == EncodingView::Primitive(Primitive::Unknown),
{
    match e {
        EncodingView::Primitive(p) => {},
        EncodingView::Pointer(t) => {},
        EncodingView::Array(n, t) => {},
        EncodingView::Aggregate(union, name, fields) => {},
    }
}

/// Whether an encoding is read at `i` that accounts for the text of `e`
/// there: what is read is written as the text that was read, and it ends
/// behind the text of `e`, or one byte further where that text ends with
/// the code of an object and a `?` follows.
spec fn reads_text(e: EncodingView, s: Seq<u8>, i: int) -> bool {
    let n = serialize_spec(e).len() as int;
    &&& parse_at(s, i) is Some
    &&& (parse_at(s, i)->0).1 == i + n + (if ends_open(e) && i + n < s.len() && s[i + n] == 63 {
        1int
    } else {
        0int
    })
    &&& serialize_spec((parse_at(s, i)->0).0) == s.subrange(i, (parse_at(s, i)->0).1)
}

/// Whether the text of `e` stands at `i`.
spec fn text_at(e: EncodingView, s: Seq<u8>, i: int) -> bool {
    &&& 0 <= i
    &&& i + serialize_spec(e).len() <= s.len()
    &&& s.subrange(i, i + serialize_spec(e).len()) == serialize_spec(e)
}

proof fn lemma_parse_of_text(e: EncodingView, s: Seq<u8>, i: int)
    requires
        well_formed(e),
        text_at(e, s, i),
    ensures
        reads_text(e, s, i),
    decreases e, 2int,
{
    match e {
        EncodingView::Primitive(p) => {
            lemma_parse_of_leaf_text(p, s, i);
        },
        EncodingView::Pointer(t) => {
            lemma_parse_of_pointer_text(e, s, i);
        },
        EncodingView::Array(count, t) => {
            lemma_parse_of_array_text(e, s, i);
        },
        EncodingView::Aggregate(union, name, fields) => {
            lemma_parse_of_aggregate_text(e, s, i);
        },
    }
}

proof fn lemma_parse_of_leaf_text(p: Primitive, s: Seq<u8>, i: int)
    requires
        text_at(EncodingView::Primitive(p), s, i),
    ensures
        reads_text(EncodingView::Primitive(p), s, i),
{
    let e = EncodingView::Primitive(p);
    let n = serialize_spec(e).len() as int;
    assert(s[i] == s.subrange(i, i + n)[0]);
    if p == Primitive::Block {
        assert(s[i + 1] == s.subrange(i, i + n)[1]);
        assert(s.subrange(i, i + 2) =~= seq![64u8, 63u8]);
    } else if p == Primitive::Object {
        if i + 1 < s.len() && s[i + 1] == 63 {
            assert(s.subrange(i, i + 2) =~= seq![64u8, 63u8]);
        } else {
            assert(s.subrange(i, i + 1) =~= seq![64u8]);
        }
    } else {
        assert(s.subrange(i, i + 1) =~= code(p));
    }
}

proof fn lemma_parse_of_pointer_text(e: EncodingView, s: Seq<u8>, i: int)
    requires
        e is Pointer,
        well_formed(e),
        text_at(e, s, i),
    ensures
        reads_text(e, s, i),
    decreases e, 1int,
{
    let t = *e->Pointer_0;
    let n = serialize_spec(e).len() as int;
    assert(s[i] == s.subrange(i, i + n)[0]);
    lemma_split(s, i, seq![94u8], serialize_spec(t));
    lemma_parse_of_text(t, s, i + 1);
    let (inner, end) = parse_at(s, i + 1)->0;
    lemma_parse_advances(s, i + 1);
    assert(seq![94u8] + s.subrange(i + 1, end) =~= s.subrange(i, end));
}

proof fn lemma_parse_of_array_text(e: EncodingView, s: Seq<u8>, i: int)
    requires
        e is Array,
        well_formed(e),
        text_at(e, s, i),
    ensures
        reads_text(e, s, i),
    decreases e, 1int,
{
    let count = e->Array_0;
    let t = *e->Array_1;
    let text = serialize_spec(e);
    let n = text.len() as int;
    let digits = decimal(count as nat);
    let inner_text = serialize_spec(t);
    assert(s[i] == s.subrange(i, i + n)[0]);
    lemma_decimal_is_digits(count as nat);
    assert(text == (seq![91u8] + digits) + (inner_text + seq![93u8])) by {
        assert(text =~= (seq![91u8] + digits) + (inner_text + seq![93u8]));
    }
    lemma_split(s, i, seq![91u8] + digits, inner_text + seq![93u8]);
    lemma_split(s, i, seq![91u8], digits);
    let d = i + 1 + digits.len();
    lemma_split(s, d, inner_text, seq![93u8]);
    lemma_first_byte(t);
    assert(s[d] == s.subrange(d, d + inner_text.len())[0]);
    assert forall|k: int| i + 1 <= k < d implies is_digit(#[trigger] s[k]) by {
        assert(s[k] == s.subrange(i + 1, d)[k - (i + 1)]);
    }
    lemma_digits_end_of_run(s, i + 1, d);
    lemma_number_of_decimal(s, i + 1, count as nat);
    lemma_parse_of_text(t, s, d);
    let close_at = d + inner_text.len();
    assert(s[close_at] == s.subrange(close_at, close_at + 1)[0]);
    let (inner, end) = parse_at(s, d)->0;
    assert(end == close_at);
    assert(serialize_spec(inner) == s.subrange(d, close_at));
    assert(parse_at(s, i) == Some((EncodingView::Array(count, Box::new(inner)), close_at + 1)));
    assert(seq![91u8] + digits + s.subrange(d, close_at) + seq![93u8] =~= s.subrange(
        i,
        close_at + 1,
    ));
}

proof fn lemma_parse_of_aggregate_text(e: EncodingView, s: Seq<u8>, i: int)
    requires
        e is Aggregate,
        well_formed(e),
        text_at(e, s, i),
    ensures
        reads_text(e, s, i),
    decreases e, 1int,
{
    let union = e->Aggregate_0;
    let name = e->Aggregate_1;
    let fields = e->Aggregate_2;
    let text = serialize_spec(e);
    let n = text.len() as int;
    let open: u8 = if union {
        40
    } else {
        123
    };
    let close: u8 = if union {
        41
    } else {
        125
    };
    let body = serialize_all(fields, 0);
    assert(s[i] == s.subrange(i, i + n)[0]);
    assert(text == ((seq![open] + name) + seq![61u8]) + (body + seq![close])) by {
        assert(text =~= ((seq![open] + name) + seq![61u8]) + (body + seq![close]));
    }
    lemma_split(s, i, (seq![open] + name) + seq![61u8], body + seq![close]);
    lemma_split(s, i, seq![open] + name, seq![61u8]);
    lemma_split(s, i, seq![open], name);
    let eq_at = i + 1 + name.len();
    lemma_split(s, eq_at + 1, body, seq![close]);
    assert(s[eq_at] == s.subrange(eq_at, eq_at + 1)[0]);
    assert forall|k: int| i + 1 <= k < eq_at implies is_name_byte(#[trigger] s[k]) by {
        assert(s[k] == s.subrange(i + 1, eq_at)[k - (i + 1)]);
        assert(is_name_byte(name[k - (i + 1)]));
    }
    lemma_name_end_of_run(s, i + 1, eq_at);
    let close_at = eq_at + 1 + body.len();
    assert(s[close_at] == s.subrange(close_at, close_at + 1)[0]);
    assert(closer(s[i]) == close);
    lemma_fields_of_text(e, fields, 0, s, eq_at + 1, close);
    let (read, end) = parse_fields_at(s, eq_at + 1, close)->0;
    assert(s.subrange(i + 1, eq_at) == name);
    assert(parse_at(s, i) == Some(
        (EncodingView::Aggregate(union, s.subrange(i + 1, eq_at), read), close_at + 1),
    ));
    assert(seq![open] + name + seq![61u8] + s.subrange(eq_at + 1, close_at) + seq![close]
        =~= s.subrange(i, close_at + 1));
}

/// Where the texts of `fields[k..]` and the closing byte stand at `pos`,
/// a list of fields is read there that is written as those texts, and
/// what is read ends behind the closing byte.
proof fn lemma_fields_of_text(
    owner: EncodingView,
    fields: Seq<EncodingView>,
    k: int,
    s: Seq<u8>,
    pos: int,
    close: u8,
)
    requires
        owner matches EncodingView::Aggregate(_, _, fs) && fs == fields,
        forall|i: int| 0 <= i < fields.len() ==> well_formed(#[trigger] fields[i]),
        0 <= k <= fields.len(),
        0 <= pos,
        close == 125 || close == 41,
        pos + serialize_all(fields, k).len() < s.len(),
        s.subrange(pos, pos + serialize_all(fields, k).len()) == serialize_all(fields, k),
        s[pos + serialize_all(fields, k).len()] == close,
    ensures
        parse_fields_at(s, pos, close) is Some,
        (parse_fields_at(s, pos, close)->0).1 == pos + serialize_all(fields, k).len() + 1,
        serialize_all((parse_fields_at(s, pos, close)->0).0, 0) == serialize_all(fields, k),
    decreases owner, 0int, fields.len() - k,
{
    let body = serialize_all(fields, k);
    if k >= fields.len() {
        assert(body.len() == 0);
        assert(serialize_all(Seq::<EncodingView>::empty(), 0) == Seq::<u8>::empty());
    } else {
        let first = fields[k];
        let first_text = serialize_spec(first);
        let rest_text = serialize_all(fields, k + 1);
        assert(body == first_text + rest_text);
        lemma_first_byte(first);
        lemma_split(s, pos, first_text, rest_text);
        assert(s[pos] == s.subrange(pos, pos + first_text.len())[0]);
        lemma_parse_of_text(first, s, pos);
        lemma_parse_advances(s, pos);
        let (read, next) = parse_at(s, pos)->0;
        let after = pos + first_text.len();
        if next == after {
            lemma_fields_of_text(owner, fields, k + 1, s, next, close);
            let (others, end) = parse_fields_at(s, next, close)->0;
            lemma_serialize_all_shift(read, others, 0);
            assert((seq![read] + others)[0] == read);
            assert(serialize_all(seq![read] + others, 0) == serialize_spec(read) + serialize_all(
                others,
                0,
            ));
        } else {
            // The `?` behind an object was read together with it: it was
            // the text of the next field, which is of the unknown kind.
            assert(next == after + 1 && s[after] == 63);
            assert(k + 1 < fields.len()) by {
                if k + 1 >= fields.len() {
                    assert(rest_text.len() == 0);
                }
            }
            let second = fields[k + 1];
            let second_text = serialize_spec(second);
            let tail_text = serialize_all(fields, k + 2);
            assert(rest_text == second_text + tail_text);
            lemma_first_byte(second);
            lemma_split(s, after, second_text, tail_text);
            assert(s[after] == s.subrange(after, after + second_text.len())[0]);
            assert(second == EncodingView::Primitive(Primitive::Unknown));
            assert(second_text.len() == 1);
            lemma_fields_of_text(owner, fields, k + 2, s, next, close);
            let (others, end) = parse_fields_at(s, next, close)->0;
            lemma_serialize_all_shift(read, others, 0);
            assert((seq![read] + others)[0] == read);
            assert(serialize_all(seq![read] + others, 0) == serialize_spec(read) + serialize_all(
                others,
                0,
            ));
            lemma_join(s, pos, after, next);
            assert(s.subrange(after, next) == second_text);
            assert(serialize_spec(read) + tail_text =~= first_text + (second_text + tail_text));
        }
    }
}

/// Whether the text of `e` can be read in one way only: in no struct or
/// union a field whose text ends with the code of an object is followed
/// by a field of the unknown kind, which would be read together with it
/// as a block.
pub open spec fn unambiguous(e: EncodingView) -> bool
    decreases e,
{
    match e {
        EncodingView::Primitive(_) => true,
        EncodingView::Pointer(t) => unambiguous(*t),
        EncodingView::Array(_, t) => unambiguous(*t),
        EncodingView::Aggregate(_, _, fields) => {
            &&& forall|i: int| 0 <= i < fields.len() ==> unambiguous(#[trigger] fields[i])
            &&& forall|i: int|
                0 <= i < fields.len() - 1 ==> !(ends_open(#[trigger] fields[i]) && fields[i + 1]
                    == EncodingView::Primitive(Primitive::Unknown))
        },
    }
}

/// Whether no `?` stands behind the text of `e` at `i` that would be read
/// together with it.
spec fn closed_at(e: EncodingView, s: Seq<u8>, i: int) -> bool {
    let n = serialize_spec(e).len() as int;
    !(ends_open(e) && i + n < s.len() && s[i + n] == 63)
}

proof fn lemma_exact_parse_of_text(e: EncodingView, s: Seq<u8>, i: int)
    requires
        well_formed(e),
        unambiguous(e),
        text_at(e, s, i),
        closed_at(e, s, i),
    ensures
        parse_at(s, i) == Some((e, i + serialize_spec(e).len())),
    decreases e, 2int,
{
    lemma_parse_of_text(e, s, i);
    match e {
        EncodingView::Primitive(p) => {
            let n = serialize_spec(e).len() as int;
            assert(s[i] == s.subrange(i, i + n)[0]);
            if p == Primitive::Block {
                assert(s[i + 1] == s.subrange(i, i + n)[1]);
            }
        },
        EncodingView::Pointer(t) => {
            let n = serialize_spec(e).len() as int;
            assert(s[i] == s.subrange(i, i + n)[0]);
            lemma_split(s, i, seq![94u8], serialize_spec(*t));
            lemma_exact_parse_of_text(*t, s, i + 1);
        },
        EncodingView::Array(count, t) => {
            lemma_exact_parse_of_array_text(e, s, i);
        },
        EncodingView::Aggregate(union, name, fields) => {
            lemma_exact_parse_of_aggregate_text(e, s, i);
        },
    }
}

proof fn lemma_exact_parse_of_array_text(e: EncodingView, s: Seq<u8>, i: int)
    requires
        e is Array,
        well_formed(e),
        unambiguous(e),
        text_at(e, s, i),
    ensures
        parse_at(s, i) == Some((e, i + serialize_spec(e).len())),
    decreases e, 1int,
{
    let count = e->Array_0;
    let t = *e->Array_1;
    let text = serialize_spec(e);
    let n = text.len() as int;
    let digits = decimal(count as nat);
    let inner_text = serialize_spec(t);
    assert(s[i] == s.subrange(i, i + n)[0]);
    lemma_decimal_is_digits(count as nat);
    assert(text == (seq![91u8] + digits) + (inner_text + seq![93u8])) by {
        assert(text =~= (seq![91u8] + digits) + (inner_text + seq![93u8]));
    }
    lemma_split(s, i, seq![91u8] + digits, inner_text + seq![93u8]);
    lemma_split(s, i, seq![91u8], digits);
    let d = i + 1 + digits.len();
    lemma_split(s, d, inner_text, seq![93u8]);
    lemma_first_byte(t);
    assert(s[d] == s.subrange(d, d + inner_text.len())[0]);
    assert forall|k: int| i + 1 <= k < d implies is_digit(#[trigger] s[k]) by {
        assert(s[k] == s.subrange(i + 1, d)[k - (i + 1)]);
    }
    lemma_digits_end_of_run(s, i + 1, d);
    lemma_number_of_decimal(s, i + 1, count as nat);
    let close_at = d + inner_text.len();
    assert(s[close_at] == s.subrange(close_at, close_at + 1)[0]);
    lemma_exact_parse_of_text(t, s, d);
    assert(parse_at(s, i) == Some((EncodingView::Array(count, Box::new(t)), close_at + 1)));
}

proof fn lemma_exact_parse_of_aggregate_text(e: EncodingView, s: Seq<u8>, i: int)
    requires
        e is Aggregate,
        well_formed(e),
        unambiguous(e),
        text_at(e, s, i),
    ensures
        parse_at(s, i) == Some((e, i + serialize_spec(e).len())),
    decreases e, 1int,
{
    let union = e->Aggregate_0;
    let name = e->Aggregate_1;
    let fields = e->Aggregate_2;
    let text = serialize_spec(e);
    let n = text.len() as int;
    let open: u8 = if union {
        40
    } else {
        123
    };
    let close: u8 = if union {
        41
    } else {
        125
    };
    let body = serialize_all(fields, 0);
    assert(s[i] == s.subrange(i, i + n)[0]);
    assert(text == ((seq![open] + name) + seq![61u8]) + (body + seq![close])) by {
        assert(text =~= ((seq![open] + name) + seq![61u8]) + (body + seq![close]));
    }
    lemma_split(s, i, (seq![open] + name) + seq![61u8], body + seq![close]);
    lemma_split(s, i, seq![open] + name, seq![61u8]);
    lemma_split(s, i, seq![open], name);
    let eq_at = i + 1 + name.len();
    lemma_split(s, eq_at + 1, body, seq![close]);
    assert(s[eq_at] == s.subrange(eq_at, eq_at + 1)[0]);
    assert forall|k: int| i + 1 <= k < eq_at implies is_name_byte(#[trigger] s[k]) by {
        assert(s[k] == s.subrange(i + 1, eq_at)[k - (i + 1)]);
        assert(is_name_byte(name[k - (i + 1)]));
    }
    lemma_name_end_of_run(s, i + 1, eq_at);
    let close_at = eq_at + 1 + body.len();
    assert(s[close_at] == s.subrange(close_at, close_at + 1)[0]);
    assert(closer(s[i]) == close);
    lemma_exact_fields_of_text(e, fields, 0, s, eq_at + 1, close);
    assert(fields.subrange(0, fields.len() as int) =~= fields);
    assert(s.subrange(i + 1, eq_at) == name);
    assert(parse_at(s, i) == Some(
        (EncodingView::Aggregate(union, s.subrange(i + 1, eq_at), fields), close_at + 1),
    ));
}

proof fn lemma_exact_fields_of_text(
    owner: EncodingView,
    fields: Seq<EncodingView>,
    k: int,
    s: Seq<u8>,
    pos: int,
    close: u8,
)
    requires
        owner matches EncodingView::Aggregate(_, _, fs) && fs == fields,
        well_formed(owner),
        unambiguous(owner),
        0 <= k <= fields.len(),
        0 <= pos,
        close == 125 || close == 41,
        pos + serialize_all(fields, k).len() < s.len(),
        s.subrange(pos, pos + serialize_all(fields, k).len()) == serialize_all(fields, k),
        s[pos + serialize_all(fields, k).len()] == close,
    ensures
        parse_fields_at(s, pos, close) == Some(
            (fields.subrange(k, fields.len() as int), pos + serialize_all(fields, k).len() + 1),
        ),
    decreases owner, 0int, fields.len() - k,
{
    let body = serialize_all(fields, k);
    if k >= fields.len() {
        assert(body.len() == 0);
        assert(fields.subrange(k, fields.len() as int) =~= Seq::<EncodingView>::empty());
    } else {
        let first = fields[k];
        let first_text = serialize_spec(first);
        let rest_text = serialize_all(fields, k + 1);
        assert(body == first_text + rest_text);
        assert(well_formed(first));
        assert(unambiguous(first));
        lemma_first_byte(first);
        lemma_split(s, pos, first_text, rest_text);
        assert(s[pos] == s.subrange(pos, pos + first_text.len())[0]);
        let after = pos + first_text.len();
        assert(closed_at(first, s, pos)) by {
            if ends_open(first) && s[after] == 63 {
                if k + 1 < fields.len() {
                    let second = fields[k + 1];
                    let second_text = serialize_spec(second);
                    let tail_text = serialize_all(fields, k + 2);
                    assert(rest_text == second_text + tail_text);
                    lemma_first_byte(second);
                    lemma_split(s, after, second_text, tail_text);
                    assert(s[after] == s.subrange(after, after + second_text.len())[0]);
                    assert(second == EncodingView::Primitive(Primitive::Unknown));
                    assert(!(ends_open(fields[k]) && fields[k + 1] == EncodingView::Primitive(
                        Primitive::Unknown,
                    )));
                } else {
                    assert(rest_text.len() == 0);
                }
            }
        }
        lemma_exact_parse_of_text(first, s, pos);
        lemma_exact_fields_of_text(owner, fields, k + 1, s, after, close);
        assert(seq![first] + fields.subrange(k + 1, fields.len() as int) =~= fields.subrange(
            k,
            fields.len() as int,
        ));
    }
}

/// Reading the text that is written for an encoding gives the encoding
/// back, where its names are admissible and its text can be read in one
/// way only.
pub proof fn lemma_parse_inverts_serialize(e: EncodingView)
    requires
        well_formed(e),
        unambiguous(e),
    ensures
        parse_spec(serialize_spec(e)) == Some(e),
{
    let s = serialize_spec(e);
    assert(s.subrange(0, s.len() as int) =~= s);
    lemma_exact_parse_of_text(e, s, 0);
}

/// The text that is written for an encoding with admissible names is
/// well formed, and reading it gives an encoding that is written as the
/// same text: written text is canonical.
pub proof fn lemma_written_text_round_trips(e: EncodingView)
    requires
        well_formed(e),
    ensures
        parse_spec(serialize_spec(e)) is Some,
        serialize_spec(parse_spec(serialize_spec(e))->0) == serialize_spec(e),
        canonicalize_spec(serialize_spec(e)) == serialize_spec(e),
{
    let s = serialize_spec(e);
    assert(s.subrange(0, s.len() as int) =~= s);
    lemma_parse_of_text(e, s, 0);
    lemma_serialize_parse_is_canonical(s);
}

// ---------------------------------------------------------------------
// The reader
// ---------------------------------------------------------------------

/// Reads the run of digits at `pos`. Gives its value and the position
/// behind it; `None` where no digit stands at `pos` or the value does not
/// fit in 64 bits.
fn read_number(s: &[u8], pos: usize) -> (r: Option<(u64, usize)>)
    requires
        pos <= s.len(),
    ensures
        match r {
            Some((v, end)) => {
                &&& end == digits_end(s@, pos as int)
                &&& pos < end <= s.len()
                &&& v == number(s@, pos as int, end as int)
            },
            None => {
                let d = digits_end(s@, pos as int);
                d <= pos || number(s@, pos as int, d) > u64::MAX
            },
        },
{
    let mut i: usize = pos;
    let mut acc: u64 = 0;
    proof {
        lemma_digits_end(s@, pos as int);
    }
    while i < s.len() && s[i] >= 48 && s[i] <= 57
        invariant
            pos <= i <= s.len(),
            forall|k: int| pos <= k < i ==> is_digit(#[trigger] s@[k]),
            acc == number(s@, pos as int, i as int),
            i == pos || digits_end(s@, pos as int) == digits_end(s@, i as int),
        decreases s.len() - i,
    {
        let digit: u64 = (s[i] - 48) as u64;
        proof {
            lemma_digits_end_step(s@, pos as int, i as int);
            lemma_digits_end(s@, i as int + 1);
            let d = digits_end(s@, pos as int);
            lemma_digits_end(s@, pos as int);
            lemma_number_grows(s@, pos as int, i as int + 1, d);
        }
        if acc > (u64::MAX - digit) / 10 {
            return None;
        }
        acc = acc * 10 + digit;
        i = i + 1;
    }
    if i == pos {
        None
    } else {
        Some((acc, i))
    }
}

/// Reads the run of name bytes at `pos`.
fn read_name(s: &[u8], pos: usize) -> (r: (Vec<u8>, usize))
    requires
        pos <= s.len(),
    ensures
        r.1 == name_end(s@, pos as int),
        pos <= r.1 <= s.len(),
        r.0@ == s@.subrange(pos as int, r.1 as int),
{
    let mut i: usize = pos;
    let mut name: Vec<u8> = Vec::new();
    while i < s.len() && is_name_byte_exec(s[i])
        invariant
            pos <= i <= s.len(),
            forall|k: int| pos <= k < i ==> is_name_byte(#[trigger] s@[k]),
            i == pos || name_end(s@, pos as int) == name_end(s@, i as int),
            name@ == s@.subrange(pos as int, i as int),
        decreases s.len() - i,
    {
        proof {
            lemma_name_end_step(s@, pos as int, i as int);
        }
        name.push(s[i]);
        i = i + 1;
    }
    (name, i)
}

fn is_name_byte_exec(b: u8) -> (r: bool)
    ensures
        r == is_name_byte(b),
{
    (65 <= b && b <= 90) || (97 <= b && b <= 122) || (48 <= b && b <= 57) || b == 95 || b == 63
}

fn leaf_of_byte_exec(b: u8) -> (r: Option<Primitive>)
    ensures
        r == leaf_of_byte(b),
{
    if b == 99 {
        Some(Primitive::Char)
    } else if b == 115 {
        Some(Primitive::Short)
    } else if b == 105 {
        Some(Primitive::Int)
    } else if b == 108 {
        Some(Primitive::Long)
    } else if b == 113 {
        Some(Primitive::LongLong)
    } else if b == 67 {
        Some(Primitive::UChar)
    } else if b == 83 {
        Some(Primitive::UShort)
    } else if b == 73 {
        Some(Primitive::UInt)
    } else if b == 76 {
        Some(Primitive::ULong)
    } else if b == 81 {
        Some(Primitive::ULongLong)
    } else if b == 102 {
        Some(Primitive::Float)
    } else if b == 100 {
        Some(Primitive::Double)
    } else if b == 66 {
        Some(Primitive::Bool)
    } else if b == 118 {
        Some(Primitive::Void)
    } else if b == 42 {
        Some(Primitive::String)
    } else if b == 35 {
        Some(Primitive::Class)
    } else if b == 58 {
        Some(Primitive::Sel)
    } else if b == 63 {
        Some(Primitive::Unknown)
    } else {
        None
    }
}

/// Reads the encoding that starts at `pos`.
fn parse_one(s: &[u8], pos: usize) -> (r: Option<(Encoding, usize)>)
    requires
        pos <= s.len(),
    ensures
        match r {
            Some((e, end)) => {
                &&& parse_at(s@, pos as int) matches Some((v, e2))
                &&& v == e@
                &&& e2 == end
                &&& pos < end <= s.len()
            },
            None => parse_at(s@, pos as int) is None,
        },
    decreases s.len() - pos, 0int,
{
    proof {
        lemma_parse_advances(s@, pos as int);
    }
    if pos >= s.len() {
        return None;
    }
    let b = s[pos];
    if b == 94 {
        match parse_one(s, pos + 1) {
            Some((t, end)) => Some((Encoding::Pointer(Box::new(t)), end)),
            None => None,
        }
    } else if b == 91 {
        match read_number(s, pos + 1) {
            None => None,
            Some((n, d)) => {
                match parse_one(s, d) {
                    None => None,
                    Some((t, end)) => {
                        if end < s.len() && s[end] == 93 {
                            Some((Encoding::Array(n, Box::new(t)), end + 1))
                        } else {
                            None
                        }
                    },
                }
            },
        }
    } else if b == 123 || b == 40 {
        let (name, n) = read_name(s, pos + 1);
        if n >= s.len() || s[n] != 61 {
            return None;
        }
        let close: u8 = if b == 123 {
            125
        } else {
            41
        };
        let empty: Vec<Encoding> = Vec::new();
        let ghost none = views_of(empty@);
        match parse_fields(s, n + 1, close, empty) {
            None => None,
            Some((fields, end)) => {
                proof {
                    let spec_fields = (parse_fields_at(s@, n as int + 1, close)->0).0;
                    assert(none + spec_fields =~= spec_fields);
                }
                let ghost fs = views_of(fields@);
                let ghost nm = name@;
                let out = if b == 123 {
                    Encoding::Struct(name, fields)
                } else {
                    Encoding::Union(name, fields)
                };
                proof {
                    lemma_view_aggregate(out);
                }
                Some((out, end))
            },
        }
    } else if b == 64 {
        if pos + 1 < s.len() && s[pos + 1] == 63 {
            Some((Encoding::Primitive(Primitive::Block), pos + 2))
        } else {
            Some((Encoding::Primitive(Primitive::Object), pos + 1))
        }
    } else {
        match leaf_of_byte_exec(b) {
            Some(p) => Some((Encoding::Primitive(p), pos + 1)),
            None => None,
        }
    }
}

/// Reads encodings from `pos` up to the byte `close` and appends them to
/// `acc`.
fn parse_fields(s: &[u8], pos: usize, close: u8, acc: Vec<Encoding>) -> (r: Option<
    (Vec<Encoding>, usize),
>)
    requires
        pos <= s.len(),
    ensures
        match r {
            Some((v, end)) => {
                &&& parse_fields_at(s@, pos as int, close) matches Some((fs, e2))
                &&& e2 == end
                &&& views_of(v@) == views_of(acc@) + fs
                &&& pos < end <= s.len()
            },
            None => parse_fields_at(s@, pos as int, close) is None,
        },
    decreases s.len() - pos, 1int,
{
    if pos >= s.len() {
        return None;
    }
    if s[pos] == close {
        proof {
            assert(views_of(acc@) + Seq::<EncodingView>::empty() =~= views_of(acc@));
        }
        return Some((acc, pos + 1));
    }
    match parse_one(s, pos) {
        None => None,
        Some((e, next)) => {
            let mut acc = acc;
            let ghost before = acc@;
            let ghost head = e@;
            acc.push(e);
            proof {
                assert(views_of(acc@) =~= views_of(before) + seq![head]);
            }
            let r = parse_fields(s, next, close, acc);
            proof {
                if r is Some {
                    let rest = (parse_fields_at(s@, next as int, close)->0).0;
                    assert((views_of(before) + seq![head]) + rest =~= views_of(before) + (seq![
                        head,
                    ] + rest));
                }
            }
            r
        },
    }
}

// ---------------------------------------------------------------------
// The writer
// ---------------------------------------------------------------------

/// Appends the decimal digits of `v` to `out`.
fn write_decimal(v: u64, out: &mut Vec<u8>)
    ensures
        final(out)@ == old(out)@ + decimal(v as nat),
    decreases v,
{
    if v >= 10 {
        write_decimal(v / 10, out);
    }
    let digit: u8 = (v % 10) as u8;
    out.push(48 + digit);
    proof {
        if v >= 10 {
            assert(final(out)@ =~= old(out)@ + decimal(v as nat));
        } else {
            assert(final(out)@ =~= old(out)@ + decimal(v as nat));
        }
    }
}

/// Appends the text of a leaf kind to `out`.
fn write_code(p: Primitive, out: &mut Vec<u8>)
    ensures
        final(out)@ == old(out)@ + code(p),
{
    let b: u8 = match p {
        Primitive::Char => 99,
        Primitive::Short => 115,
        Primitive::Int => 105,
        Primitive::Long => 108,
        Primitive::LongLong => 113,
        Primitive::UChar => 67,
        Primitive::UShort => 83,
        Primitive::UInt => 73,
        Primitive::ULong => 76,
        Primitive::ULongLong => 81,
        Primitive::Float => 102,
        Primitive::Double => 100,
        Primitive::Bool => 66,
        Primitive::Void => 118,
        Primitive::String => 42,
        Primitive::Object => 64,
        Primitive::Block => 64,
        Primitive::Class => 35,
        Primitive::Sel => 58,
        Primitive::Unknown => 63,
    };
    out.push(b);
    match p {
        Primitive::Block => {
            out.push(63);
        },
        _ => {},
    }
    assert(out@ =~= old(out)@ + code(p));
}

/// Appends the canonical text of `e` to `out`.
fn write_encoding(e: &Encoding, out: &mut Vec<u8>)
    ensures
        final(out)@ == old(out)@ + serialize_spec(e@),
    decreases e,
{
    match e {
        Encoding::Primitive(p) => {
            write_code(*p, out);
        },
        Encoding::Pointer(t) => {
            out.push(94);
            write_encoding(t, out);
            assert(out@ =~= old(out)@ + serialize_spec(e@));
        },
        Encoding::Array(n, t) => {
            out.push(91);
            write_decimal(*n, out);
            write_encoding(t, out);
            out.push(93);
            assert(out@ =~= old(out)@ + serialize_spec(e@));
        },
        Encoding::Struct(name, fields) => {
            proof {
                lemma_view_aggregate(*e);
            }
            out.push(123);
            crate::bytes::append_bytes(out, name);
            out.push(61);
            write_fields(e, fields, out);
            out.push(125);
            assert(out@ =~= old(out)@ + serialize_spec(e@));
        },
        Encoding::Union(name, fields) => {
            proof {
                lemma_view_aggregate(*e);
            }
            out.push(40);
            crate::bytes::append_bytes(out, name);
            out.push(61);
            write_fields(e, fields, out);
            out.push(41);
            assert(out@ =~= old(out)@ + serialize_spec(e@));
        },
    }
}

/// Appends the canonical texts of the fields of the aggregate `owner`.
fn write_fields(owner: &Encoding, fields: &Vec<Encoding>, out: &mut Vec<u8>)
    requires
        (owner matches Encoding::Struct(_, fs) && fs == fields) || (owner matches Encoding::Union(
            _,
            fs,
        ) && fs == fields),
    ensures
        final(out)@ == old(out)@ + serialize_all(views_of(fields@), 0),
    decreases owner, 0int,
{
    let mut i: usize = 0;
    let ghost fs = views_of(fields@);
    while i < fields.len()
        invariant
            i <= fields.len(),
            fs == views_of(fields@),
            (owner matches Encoding::Struct(_, fs) && fs == fields) || (owner matches Encoding::Union(
                _,
                fs,
            ) && fs == fields),
            out@ + serialize_all(fs, i as int) == old(out)@ + serialize_all(fs, 0),
        decreases fields.len() - i,
    {
        let ghost before = out@;
        write_encoding(&fields[i], out);
        proof {
            assert(fs[i as int] == fields[i as int]@);
            assert((before + serialize_spec(fs[i as int])) + serialize_all(fs, i as int + 1)
                =~= before + (serialize_spec(fs[i as int]) + serialize_all(fs, i as int + 1)));
        }
        i = i + 1;
    }
    assert(out@ + Seq::<u8>::empty() =~= out@);
}

/// Whether `b` is a decimal digit.
fn is_digit_exec(b: u8) -> (r: bool)
    ensures
        r == is_digit(b),
{
    48 <= b && b <= 57
}

/// The canonical form of the text `s`: every array length loses its
/// leading zeros.
pub fn canonicalize(s: &[u8]) -> (r: Vec<u8>)
    ensures
        r@ == canonicalize_spec(s@),
{
    let mut out: Vec<u8> = Vec::new();
    let mut i: usize = 0;
    let mut stripping: bool = false;
    let n = s.len();
    while i < n
        invariant
            n == s.len(),
            i <= n,
            canonicalize_spec(s@) == out@ + (if stripping {
                stripped_range(s@, i as int, n as int)
            } else {
                canonical_range(s@, i as int, n as int)
            }),
        decreases n - i,
    {
        let b = s[i];
        if stripping && b == 48 && i + 1 < n && is_digit_exec(s[i + 1]) {
            assert(stripped_range(s@, i as int, n as int) == stripped_range(
                s@,
                i as int + 1,
                n as int,
            ));
            i = i + 1;
        } else {
            let ghost before = out@;
            let ghost at = i as int;
            assert(stripping ==> stripped_range(s@, at, n as int) == canonical_range(
                s@,
                at,
                n as int,
            ));
            out.push(b);
            stripping = b == 91;
            i = i + 1;
            proof {
                let tail = if stripping {
                    stripped_range(s@, at + 1, n as int)
                } else {
                    canonical_range(s@, at + 1, n as int)
                };
                assert(canonical_range(s@, at, n as int) == seq![b] + tail);
                assert(before + (seq![b] + tail) =~= out@ + tail);
            }
        }
    }
    assert(stripped_range(s@, n as int, n as int) == canonical_range(s@, n as int, n as int));
    assert(canonical_range(s@, n as int, n as int) == Seq::<u8>::empty());
    assert(out@ + Seq::<u8>::empty() =~= out@);
    out
}

/// Whether a name holds bytes of names only.
fn name_is_ok(name: &Vec<u8>) -> (r: bool)
    ensures
        r == name_ok(name@),
{
    let mut i: usize = 0;
    while i < name.len()
        invariant
            i <= name.len(),
            forall|k: int| 0 <= k < i ==> is_name_byte(#[trigger] name@[k]),
        decreases name.len() - i,
    {
        if !is_name_byte_exec(name[i]) {
            return false;
        }
        i = i + 1;
    }
    true
}

/// Whether the fields of the aggregate `owner` are well formed.
fn fields_are_well_formed(owner: &Encoding, fields: &Vec<Encoding>) -> (r: bool)
    requires
        (owner matches Encoding::Struct(_, fs) && fs == fields) || (owner matches Encoding::Union(
            _,
            fs,
        ) && fs == fields),
    ensures
        r == (forall|i: int|
            0 <= i < fields@.len() ==> well_formed(#[trigger] views_of(fields@)[i])),
    decreases owner, 0int,
{
    let mut i: usize = 0;
    while i < fields.len()
        invariant
            i <= fields.len(),
            (owner matches Encoding::Struct(_, fs) && fs == fields) || (owner matches Encoding::Union(
                _,
                fs,
            ) && fs == fields),
            forall|k: int| 0 <= k < i ==> well_formed(#[trigger] views_of(fields@)[k]),
        decreases fields.len() - i,
    {
        if !fields[i].is_well_formed() {
            assert(!well_formed(views_of(fields@)[i as int]));
            return false;
        }
        i = i + 1;
    }
    true
}

/// Copies of the fields of the aggregate `owner`.
fn duplicate_fields(owner: &Encoding, fields: &Vec<Encoding>) -> (r: Vec<Encoding>)
    requires
        (owner matches Encoding::Struct(_, fs) && fs == fields) || (owner matches Encoding::Union(
            _,
            fs,
        ) && fs == fields),
    ensures
        views_of(r@) == views_of(fields@),
    decreases owner, 0int,
{
    let mut out: Vec<Encoding> = Vec::new();
    let mut i: usize = 0;
    while i < fields.len()
        invariant
            i <= fields.len(),
            (owner matches Encoding::Struct(_, fs) && fs == fields) || (owner matches Encoding::Union(
                _,
                fs,
            ) && fs == fields),
            out.len() == i,
            forall|k: int| 0 <= k < i ==> (#[trigger] out@[k])@ == fields@[k]@,
        decreases fields.len() - i,
    {
        let copy = fields[i].duplicate();
        out.push(copy);
        i = i + 1;
    }
    assert(views_of(out@) =~= views_of(fields@));
    out
}

/// Copies of a list of encodings.
pub fn duplicate_all(list: &Vec<Encoding>) -> (r: Vec<Encoding>)
    ensures
        views_of(r@) == views_of(list@),
{
    let mut out: Vec<Encoding> = Vec::new();
    let mut i: usize = 0;
    while i < list.len()
        invariant
            i <= list.len(),
            out.len() == i,
            forall|k: int| 0 <= k < i ==> (#[trigger] out@[k])@ == list@[k]@,
        decreases list.len() - i,
    {
        let copy = list[i].duplicate();
        out.push(copy);
        i = i + 1;
    }
    assert(views_of(out@) =~= views_of(list@));
    out
}

impl Encoding {
    /// Reads an encoding from its text. Gives `None` exactly where `s` is
    /// not a well-formed text.
    pub fn parse(s: &[u8]) -> (r: Option<Encoding>)
        ensures
            match r {
                Some(e) => parse_spec(s@) == Some(e@),
                None => parse_spec(s@) is None,
            },
    {
        match parse_one(s, 0) {
            Some((e, end)) => {
                if end == s.len() {
                    Some(e)
                } else {
                    None
                }
            },
            None => None,
        }
    }

    /// A copy of the encoding.
    pub fn duplicate(&self) -> (r: Encoding)
        ensures
            r@ == self@,
        decreases self,
    {
        match self {
            Encoding::Primitive(p) => Encoding::Primitive(*p),
            Encoding::Pointer(t) => Encoding::Pointer(Box::new(t.duplicate())),
            Encoding::Array(n, t) => Encoding::Array(*n, Box::new(t.duplicate())),
            Encoding::Struct(name, fields) => {
                let out = Encoding::Struct(
                    crate::bytes::copy_bytes(name),
                    duplicate_fields(self, fields),
                );
                proof {
                    lemma_view_aggregate(*self);
                    lemma_view_aggregate(out);
                }
                out
            },
            Encoding::Union(name, fields) => {
                let out = Encoding::Union(
                    crate::bytes::copy_bytes(name),
                    duplicate_fields(self, fields),
                );
                proof {
                    lemma_view_aggregate(*self);
                    lemma_view_aggregate(out);
                }
                out
            },
        }
    }

    /// Whether every struct and union in the encoding has a name that
    /// the grammar admits, so that the text written for it can be read
    /// again.
    pub fn is_well_formed(&self) -> (r: bool)
        ensures
            r == well_formed(self@),
        decreases self,
    {
        match self {
            Encoding::Primitive(_) => true,
            Encoding::Pointer(t) => t.is_well_formed(),
            Encoding::Array(_, t) => t.is_well_formed(),
            Encoding::Struct(name, fields) => {
                proof {
                    lemma_view_aggregate(*self);
                }
                let names = name_is_ok(name);
                let rest = fields_are_well_formed(self, fields);
                proof {
                    let views = views_of(fields@);
                    if rest {
                        assert forall|i: int| 0 <= i < views.len() implies well_formed(
                            #[trigger] views[i],
                        ) by {}
                    } else {
                        let i = choose|i: int|
                            0 <= i < fields@.len() && !well_formed(
                                #[trigger] views_of(fields@)[i],
                            );
                        assert(self@->Aggregate_2 == views);
                        assert(!well_formed(self@->Aggregate_2[i]));
                    }
                }
                names && rest
            },
            Encoding::Union(name, fields) => {
                proof {
                    lemma_view_aggregate(*self);
                }
                let names = name_is_ok(name);
                let rest = fields_are_well_formed(self, fields);
                proof {
                    let views = views_of(fields@);
                    if rest {
                        assert forall|i: int| 0 <= i < views.len() implies well_formed(
                            #[trigger] views[i],
                        ) by {}
                    } else {
                        let i = choose|i: int|
                            0 <= i < fields@.len() && !well_formed(
                                #[trigger] views_of(fields@)[i],
                            );
                        assert(self@->Aggregate_2 == views);
                        assert(!well_formed(self@->Aggregate_2[i]));
                    }
                }
                names && rest
            },
        }
    }

    /// Writes the canonical text of the encoding.
    pub fn serialize(&self) -> (r: Vec<u8>)
        ensures
            r@ == serialize_spec(self@),
    {
        let mut out: Vec<u8> = Vec::new();
        write_encoding(self, &mut out);
        assert(out@ =~= serialize_spec(self@));
        out
    }
}

} // verus!
