//! Sizes and alignments of encoded values, and the classification of
//! return values by calling convention.
//!
//! A struct places its fields in declaration order, each at the next
//! offset that is a multiple of its alignment, and is padded at the end to
//! a multiple of its own alignment, which is the largest among its fields.
//! A union is as large as its largest member, padded likewise.

use vstd::prelude::*;
use crate::encoding::{Encoding, EncodingView, Primitive, views_of, lemma_view_aggregate};

verus! {

/// The width of a pointer on the target.
#[derive(Clone, Copy, Debug, PartialEq, Eq, Hash, Structural)]
pub enum PointerWidth {
    Bits32,
    Bits64,
}

/// The size and the alignment of a value, in bytes.
#[derive(Clone, Copy, Debug, PartialEq, Eq, Hash, Structural)]
pub struct Layout {
    pub size: u64,
    pub align: u64,
}

/// The raw call shapes, by the way the result comes back.
#[derive(Clone, Copy, Debug, PartialEq, Eq, Hash, Structural)]
pub enum ReturnShape {
    /// A scalar that comes back in integer registers.
    Scalar,
    /// A small aggregate that comes back in registers.
    SmallAggregate,
    /// An aggregate that is written to storage that the caller supplies.
    LargeAggregate,
    /// A floating-point value that comes back on the path of its own.
    FloatingPoint,
}

/// The table that decides, for one architecture and runtime, which call
/// shape a return value takes.
#[derive(Clone, Copy, Debug, PartialEq, Eq, Hash, Structural)]
pub struct Abi {
    pub pointer_width: PointerWidth,
    /// The largest aggregate, in bytes, that comes back in registers.
    pub register_aggregate_limit: u64,
    /// Whether single-precision results take the floating-point path.
    pub float_path: bool,
    /// Whether double-precision results take the floating-point path.
    pub double_path: bool,
}

impl Abi {
    /// The table for 64-bit Intel: aggregates of up to 16 bytes come back
    /// in registers, and no result takes a floating-point path of its
    /// own.
    pub fn x86_64() -> (r: Abi)
        ensures
            r == (Abi {
                pointer_width: PointerWidth::Bits64,
                register_aggregate_limit: 16,
                float_path: false,
                double_path: false,
            }),
    {
        Abi {
            pointer_width: PointerWidth::Bits64,
            register_aggregate_limit: 16,
            float_path: false,
            double_path: false,
        }
    }

    /// The table for 32-bit Intel: aggregates of up to 8 bytes come back
    /// in registers, and floating-point results come back on the
    /// floating-point stack.
    pub fn x86() -> (r: Abi)
        ensures
            r == (Abi {
                pointer_width: PointerWidth::Bits32,
                register_aggregate_limit: 8,
                float_path: true,
                double_path: true,
            }),
    {
        Abi {
            pointer_width: PointerWidth::Bits32,
            register_aggregate_limit: 8,
            float_path: true,
            double_path: true,
        }
    }

    /// The table for 64-bit ARM: aggregates of up to 16 bytes come back in
    /// registers, and no result takes a floating-point path of its own.
    pub fn aarch64() -> (r: Abi)
        ensures
            r == (Abi {
                pointer_width: PointerWidth::Bits64,
                register_aggregate_limit: 16,
                float_path: false,
                double_path: false,
            }),
    {
        Abi {
            pointer_width: PointerWidth::Bits64,
            register_aggregate_limit: 16,
            float_path: false,
            double_path: false,
        }
    }

    /// The table for 32-bit ARM: aggregates of up to 4 bytes come back in
    /// a register, and no result takes a floating-point path of its own.
    pub fn arm() -> (r: Abi)
        ensures
            r == (Abi {
                pointer_width: PointerWidth::Bits32,
                register_aggregate_limit: 4,
                float_path: false,
                double_path: false,
            }),
    {
        Abi {
            pointer_width: PointerWidth::Bits32,
            register_aggregate_limit: 4,
            float_path: false,
            double_path: false,
        }
    }
}

/// The size of a pointer, in bytes.
pub open spec fn pointer_bytes(width: PointerWidth) -> nat {
    match width {
        PointerWidth::Bits32 => 4,
        PointerWidth::Bits64 => 8,
    }
}

/// The least multiple of `align` that is at least `x`; `x` itself for
/// the alignment zero.
pub open spec fn round_up(x: nat, align: nat) -> nat {
    if align == 0 {
        x
    } else {
        (((x + align - 1) / align as int) * align) as nat
    }
}

/// The larger of two numbers.
pub open spec fn max(a: nat, b: nat) -> nat {
    if a >= b {
        a
    } else {
        b
    }
}

/// The size of a leaf kind; its alignment is its size, and 1 for `void`.
/// The kinds `l` and `L` have 32 bits on every target, and objects,
/// classes, selectors, blocks, C strings and function pointers are as wide
/// as a pointer.
pub open spec fn primitive_size(p: Primitive, width: PointerWidth) -> nat {
    match p {
        Primitive::Char | Primitive::UChar | Primitive::Bool => 1,
        Primitive::Short | Primitive::UShort => 2,
        Primitive::Int | Primitive::UInt | Primitive::Long | Primitive::ULong | Primitive::Float => 4,
        Primitive::LongLong | Primitive::ULongLong | Primitive::Double => 8,
        Primitive::Void => 0,
        Primitive::String | Primitive::Object | Primitive::Block | Primitive::Class
        | Primitive::Sel | Primitive::Unknown => pointer_bytes(width),
    }
}

/// The size and alignment of a value of the given shape; `None` where a
/// size on the way does not fit in 64 bits.
pub open spec fn layout_spec(e: EncodingView, width: PointerWidth) -> Option<(nat, nat)>
    decreases e, 0int, 0int,
{
    match e {
        EncodingView::Primitive(p) => Some(
            (primitive_size(p, width), max(primitive_size(p, width), 1)),
        ),
        EncodingView::Pointer(_) => Some((pointer_bytes(width), pointer_bytes(width))),
        EncodingView::Array(n, t) => match layout_spec(*t, width) {
            Some((size, align)) => if n * size <= u64::MAX {
                Some(((n * size) as nat, align))
            } else {
                None
            },
            None => None,
        },
        EncodingView::Aggregate(union, _, fields) => if union {
            union_layout(fields, width, 0, 0, 1)
        } else {
            struct_layout(fields, width, 0, 0, 1)
        },
    }
}

/// The layout of a struct whose fields before `i` end at `offset` and
/// have the largest alignment `align`.
pub open spec fn struct_layout(
    fields: Seq<EncodingView>,
    width: PointerWidth,
    i: int,
    offset: nat,
    align: nat,
) -> Option<(nat, nat)>
    decreases fields, 1int, fields.len() - i,
{
    if i < 0 || i >= fields.len() {
        if round_up(offset, align) <= u64::MAX {
            Some((round_up(offset, align), align))
        } else {
            None
        }
    } else {
        match layout_spec(fields[i], width) {
            Some((size, a)) => if round_up(offset, a) + size <= u64::MAX {
                struct_layout(fields, width, i + 1, round_up(offset, a) + size, max(align, a))
            } else {
                None
            },
            None => None,
        }
    }
}

/// The layout of a union whose members before `i` have the largest size
/// `size` and the largest alignment `align`.
pub open spec fn union_layout(
    fields: Seq<EncodingView>,
    width: PointerWidth,
    i: int,
    size: nat,
    align: nat,
) -> Option<(nat, nat)>
    decreases fields, 1int, fields.len() - i,
{
    if i < 0 || i >= fields.len() {
        if round_up(size, align) <= u64::MAX {
            Some((round_up(size, align), align))
        } else {
            None
        }
    } else {
        match layout_spec(fields[i], width) {
            Some((s, a)) => union_layout(fields, width, i + 1, max(size, s), max(align, a)),
            None => None,
        }
    }
}

/// Whether `l` is the layout that `spec` states.
pub open spec fn layout_is(l: Option<Layout>, spec: Option<(nat, nat)>) -> bool {
    match l {
        Some(layout) => spec == Some((layout.size as nat, layout.align as nat)),
        None => spec is None,
    }
}

/// The call shape that a return value of the given shape takes.
pub open spec fn classify_spec(e: EncodingView, abi: Abi) -> ReturnShape {
    match e {
        EncodingView::Primitive(Primitive::Float) => if abi.float_path {
            ReturnShape::FloatingPoint
        } else {
            ReturnShape::Scalar
        },
        EncodingView::Primitive(Primitive::Double) => if abi.double_path {
            ReturnShape::FloatingPoint
        } else {
            ReturnShape::Scalar
        },
        EncodingView::Primitive(_) => ReturnShape::Scalar,
        EncodingView::Pointer(_) => ReturnShape::Scalar,
        _ => match layout_spec(e, abi.pointer_width) {
            Some((size, _)) => if size <= abi.register_aggregate_limit {
                ReturnShape::SmallAggregate
            } else {
                ReturnShape::LargeAggregate
            },
            None => ReturnShape::LargeAggregate,
        },
    }
}

// ---------------------------------------------------------------------
// Facts
// ---------------------------------------------------------------------

/// Rounding up gives the least multiple of the alignment that is at
/// least `x`.
pub proof fn lemma_round_up(x: nat, align: nat)
    requires
        align > 0,
    ensures
        x <= round_up(x, align) < x + align,
        round_up(x, align) % align == 0,
{
    let t = (x + align - 1) as int;
    let a = align as int;
    assert((t / a) * a <= t && t < (t / a) * a + a && ((t / a) * a) % a == 0)
        by (nonlinear_arith)
        requires
            a > 0,
            t >= 0,
    ;
}

/// An alignment is at least 1.
pub proof fn lemma_align_positive(e: EncodingView, width: PointerWidth)
    ensures
        layout_spec(e, width) matches Some((_, align)) ==> align >= 1,
    decreases e, 0int, 0int,
{
    match e {
        EncodingView::Array(n, t) => {
            lemma_align_positive(*t, width);
        },
        EncodingView::Aggregate(union, _, fields) => {
            if union {
                lemma_union_align_positive(fields, width, 0, 0, 1);
            } else {
                lemma_struct_align_positive(fields, width, 0, 0, 1);
            }
        },
        _ => {},
    }
}

proof fn lemma_struct_align_positive(
    fields: Seq<EncodingView>,
    width: PointerWidth,
    i: int,
    offset: nat,
    align: nat,
)
    requires
        align >= 1,
    ensures
        struct_layout(fields, width, i, offset, align) matches Some((_, a)) ==> a >= 1,
    decreases fields, 1int, fields.len() - i,
{
    if 0 <= i < fields.len() {
        lemma_align_positive(fields[i], width);
        match layout_spec(fields[i], width) {
            Some((size, a)) => {
                if round_up(offset, a) + size <= u64::MAX {
                    lemma_struct_align_positive(
                        fields,
                        width,
                        i + 1,
                        round_up(offset, a) + size,
                        max(align, a),
                    );
                }
            },
            None => {},
        }
    }
}

proof fn lemma_union_align_positive(
    fields: Seq<EncodingView>,
    width: PointerWidth,
    i: int,
    size: nat,
    align: nat,
)
    requires
        align >= 1,
    ensures
        union_layout(fields, width, i, size, align) matches Some((_, a)) ==> a >= 1,
    decreases fields, 1int, fields.len() - i,
{
    if 0 <= i < fields.len() {
        lemma_align_positive(fields[i], width);
        match layout_spec(fields[i], width) {
            Some((s, a)) => {
                lemma_union_align_positive(fields, width, i + 1, max(size, s), max(align, a));
            },
            None => {},
        }
    }
}

/// The size of a value is a multiple of its alignment, so that the
/// elements of an array stand at multiples of their alignment.
pub proof fn lemma_size_is_multiple_of_align(e: EncodingView, width: PointerWidth)
    ensures
        layout_spec(e, width) matches Some((size, align)) ==> align >= 1 && size % align == 0,
    decreases e, 0int, 0int,
{
    lemma_align_positive(e, width);
    match e {
        EncodingView::Primitive(p) => {
            let size = primitive_size(p, width);
            if size == 0 {
                assert(0nat % 1nat == 0);
            } else if size == 1 {
                assert(1nat % 1nat == 0);
            } else if size == 2 {
                assert(2nat % 2nat == 0);
            } else if size == 4 {
                assert(4nat % 4nat == 0);
            } else {
                assert(size == 8);
                assert(8nat % 8nat == 0);
            }
        },
        EncodingView::Pointer(_) => {
            if pointer_bytes(width) == 4 {
                assert(4nat % 4nat == 0);
            } else {
                assert(pointer_bytes(width) == 8);
                assert(8nat % 8nat == 0);
            }
        },
        EncodingView::Array(n, t) => {
            lemma_size_is_multiple_of_align(*t, width);
            lemma_align_positive(*t, width);
            match layout_spec(*t, width) {
                Some((size, align)) => {
                    let count = n as int;
                    let s = size as int;
                    let a = align as int;
                    let k = count * (s / a);
                    vstd::arithmetic::div_mod::lemma_fundamental_div_mod(s, a);
                    assert(count * s == k * a) by (nonlinear_arith)
                        requires
                            s == a * (s / a),
                            k == count * (s / a),
                    ;
                    vstd::arithmetic::div_mod::lemma_mod_multiples_basic(k, a);
                    assert((count * s) % a == 0);
                    assert(n * size == count * s);
                },
                None => {},
            }
        },
        EncodingView::Aggregate(union, _, fields) => {
            if union {
                lemma_union_size(fields, width, 0, 0, 1);
            } else {
                lemma_struct_size(fields, width, 0, 0, 1);
            }
        },
    }
}

proof fn lemma_struct_size(
    fields: Seq<EncodingView>,
    width: PointerWidth,
    i: int,
    offset: nat,
    align: nat,
)
    requires
        align >= 1,
    ensures
        struct_layout(fields, width, i, offset, align) matches Some((size, a)) ==> a >= 1 && size
            % a == 0 && size >= offset && a >= align,
    decreases fields.len() - i,
{
    if 0 <= i < fields.len() {
        lemma_align_positive(fields[i], width);
        match layout_spec(fields[i], width) {
            Some((size, a)) => {
                if round_up(offset, a) + size <= u64::MAX {
                    lemma_round_up(offset, a);
                    lemma_struct_size(
                        fields,
                        width,
                        i + 1,
                        round_up(offset, a) + size,
                        max(align, a),
                    );
                }
            },
            None => {},
        }
    } else {
        lemma_round_up(offset, align);
    }
}

proof fn lemma_union_size(
    fields: Seq<EncodingView>,
    width: PointerWidth,
    i: int,
    size: nat,
    align: nat,
)
    requires
        align >= 1,
    ensures
        union_layout(fields, width, i, size, align) matches Some((s, a)) ==> a >= 1 && s % a == 0
            && s >= size && a >= align,
    decreases fields.len() - i,
{
    if 0 <= i < fields.len() {
        lemma_align_positive(fields[i], width);
        match layout_spec(fields[i], width) {
            Some((s, a)) => {
                lemma_union_size(fields, width, i + 1, max(size, s), max(align, a));
            },
            None => {},
        }
    } else {
        lemma_round_up(size, align);
    }
}

// ---------------------------------------------------------------------
// Computing layouts
// ---------------------------------------------------------------------

/// The least multiple of `align` that is at least `x`, where it fits in
/// 64 bits; `x` itself for the alignment zero.
pub fn round_up_exec(x: u64, align: u64) -> (r: Option<u64>)
    ensures
        match r {
            Some(v) => v == round_up(x as nat, align as nat),
            None => round_up(x as nat, align as nat) > u64::MAX,
        },
{
    if align == 0 {
        return Some(x);
    }
    proof {
        lemma_round_up(x as nat, align as nat);
    }
    let rest = x % align;
    if rest == 0 {
        assert(round_up(x as nat, align as nat) == x) by {
            let v = round_up(x as nat, align as nat) as int;
            let xi = x as int;
            let a = align as int;
            assert(v == xi) by (nonlinear_arith)
                requires
                    xi <= v < xi + a,
                    v % a == 0,
                    xi % a == 0,
                    a > 0,
            ;
        }
        Some(x)
    } else {
        let pad = align - rest;
        assert(round_up(x as nat, align as nat) == x + pad) by {
            let v = round_up(x as nat, align as nat) as int;
            let xi = x as int;
            let a = align as int;
            let r = rest as int;
            assert(v == xi + a - r) by (nonlinear_arith)
                requires
                    xi <= v < xi + a,
                    v % a == 0,
                    xi % a == r,
                    0 < r < a,
            ;
        }
        if x > u64::MAX - pad {
            None
        } else {
            Some(x + pad)
        }
    }
}

/// The size of a pointer, in bytes.
pub fn pointer_bytes_exec(width: PointerWidth) -> (r: u64)
    ensures
        r == pointer_bytes(width),
{
    match width {
        PointerWidth::Bits32 => 4,
        PointerWidth::Bits64 => 8,
    }
}

fn primitive_size_exec(p: Primitive, width: PointerWidth) -> (r: u64)
    ensures
        r == primitive_size(p, width),
{
    match p {
        Primitive::Char => 1,
        Primitive::UChar => 1,
        Primitive::Bool => 1,
        Primitive::Short => 2,
        Primitive::UShort => 2,
        Primitive::Int => 4,
        Primitive::UInt => 4,
        Primitive::Long => 4,
        Primitive::ULong => 4,
        Primitive::Float => 4,
        Primitive::LongLong => 8,
        Primitive::ULongLong => 8,
        Primitive::Double => 8,
        Primitive::Void => 0,
        _ => pointer_bytes_exec(width),
    }
}

/// The size and alignment of a value of the shape `e`; `None` where a
/// size on the way does not fit in 64 bits.
pub fn layout(e: &Encoding, width: PointerWidth) -> (r: Option<Layout>)
    ensures
        layout_is(r, layout_spec(e@, width)),
    decreases e, 1int,
{
    match e {
        Encoding::Primitive(p) => {
            let size = primitive_size_exec(*p, width);
            let align = if size == 0 {
                1
            } else {
                size
            };
            Some(Layout { size, align })
        },
        Encoding::Pointer(_) => {
            let size = pointer_bytes_exec(width);
            Some(Layout { size, align: size })
        },
        Encoding::Array(n, t) => {
            match layout(t, width) {
                None => None,
                Some(inner) => {
                    match n.checked_mul(inner.size) {
                        Some(size) => Some(Layout { size, align: inner.align }),
                        None => None,
                    }
                },
            }
        },
        Encoding::Struct(_, fields) => {
            proof {
                lemma_view_aggregate(*e);
            }
            struct_layout_exec(e, fields, width)
        },
        Encoding::Union(_, fields) => {
            proof {
                lemma_view_aggregate(*e);
            }
            union_layout_exec(e, fields, width)
        },
    }
}

fn struct_layout_exec(owner: &Encoding, fields: &Vec<Encoding>, width: PointerWidth) -> (r: Option<
    Layout,
>)
    requires
        owner matches Encoding::Struct(_, fs) && fs == fields,
    ensures
        layout_is(r, struct_layout(views_of(fields@), width, 0, 0, 1)),
    decreases owner, 0int,
{
    let ghost fs = views_of(fields@);
    let mut i: usize = 0;
    let mut offset: u64 = 0;
    let mut align: u64 = 1;
    while i < fields.len()
        invariant
            i <= fields.len(),
            fs == views_of(fields@),
            owner matches Encoding::Struct(_, fs) && fs == fields,
            align >= 1,
            struct_layout(fs, width, 0, 0, 1) == struct_layout(
                fs,
                width,
                i as int,
                offset as nat,
                align as nat,
            ),
        decreases fields.len() - i,
    {
        proof {
            lemma_align_positive(fs[i as int], width);
        }
        match layout(&fields[i], width) {
            None => {
                return None;
            },
            Some(l) => {
                match round_up_exec(offset, l.align) {
                    None => {
                        return None;
                    },
                    Some(start) => {
                        if start > u64::MAX - l.size {
                            return None;
                        }
                        offset = start + l.size;
                        if l.align > align {
                            align = l.align;
                        }
                    },
                }
            },
        }
        i = i + 1;
    }
    match round_up_exec(offset, align) {
        Some(size) => Some(Layout { size, align }),
        None => None,
    }
}

fn union_layout_exec(owner: &Encoding, fields: &Vec<Encoding>, width: PointerWidth) -> (r: Option<
    Layout,
>)
    requires
        owner matches Encoding::Union(_, fs) && fs == fields,
    ensures
        layout_is(r, union_layout(views_of(fields@), width, 0, 0, 1)),
    decreases owner, 0int,
{
    let ghost fs = views_of(fields@);
    let mut i: usize = 0;
    let mut size: u64 = 0;
    let mut align: u64 = 1;
    while i < fields.len()
        invariant
            i <= fields.len(),
            fs == views_of(fields@),
            owner matches Encoding::Union(_, fs) && fs == fields,
            align >= 1,
            union_layout(fs, width, 0, 0, 1) == union_layout(
                fs,
                width,
                i as int,
                size as nat,
                align as nat,
            ),
        decreases fields.len() - i,
    {
        proof {
            lemma_align_positive(fs[i as int], width);
        }
        match layout(&fields[i], width) {
            None => {
                return None;
            },
            Some(l) => {
                if l.size > size {
                    size = l.size;
                }
                if l.align > align {
                    align = l.align;
                }
            },
        }
        i = i + 1;
    }
    match round_up_exec(size, align) {
        Some(size) => Some(Layout { size, align }),
        None => None,
    }
}

/// The call shape that a return value of the shape `e` takes under `abi`.
pub fn classify(e: &Encoding, abi: &Abi) -> (r: ReturnShape)
    ensures
        r == classify_spec(e@, *abi),
{
    match e {
        Encoding::Primitive(p) => {
            match p {
                Primitive::Float => if abi.float_path {
                    ReturnShape::FloatingPoint
                } else {
                    ReturnShape::Scalar
                },
                Primitive::Double => if abi.double_path {
                    ReturnShape::FloatingPoint
                } else {
                    ReturnShape::Scalar
                },
                _ => ReturnShape::Scalar,
            }
        },
        Encoding::Pointer(_) => ReturnShape::Scalar,
        _ => {
            proof {
                lemma_view_aggregate(*e);
            }
            match layout(e, abi.pointer_width) {
                Some(l) => if l.size <= abi.register_aggregate_limit {
                    ReturnShape::SmallAggregate
                } else {
                    ReturnShape::LargeAggregate
                },
                None => ReturnShape::LargeAggregate,
            }
        },
    }
}

} // verus!
