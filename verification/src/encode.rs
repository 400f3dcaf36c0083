//! The encodings of host types: for each type of value that crosses the
//! boundary, the shape under which the runtime knows it.

use vstd::prelude::*;
use crate::class::ClassId;
use crate::encoding::{Encoding, EncodingView, Primitive};
use crate::heap::RawHandle;
use crate::image::{NSImageResizingMode, spec_ns_integer_encoding};
use crate::layout::PointerWidth;
use crate::selector::Sel;

verus! {

/// A type whose values cross the boundary to the runtime.
pub trait Encode {
    /// The encoding of the type where pointers have the given width.
    spec fn spec_encoding(width: PointerWidth) -> EncodingView;

    /// The encoding of the type where pointers have the given width.
    fn encoding(width: PointerWidth) -> (r: Encoding)
        ensures
            r@ == Self::spec_encoding(width),
    ;
}

/// The encoding of an integer that is as wide as a pointer.
pub open spec fn pointer_sized(width: PointerWidth, signed: bool) -> EncodingView {
    match width {
        PointerWidth::Bits64 => EncodingView::Primitive(
            if signed {
                Primitive::LongLong
            } else {
                Primitive::ULongLong
            },
        ),
        PointerWidth::Bits32 => EncodingView::Primitive(
            if signed {
                Primitive::Int
            } else {
                Primitive::UInt
            },
        ),
    }
}

impl Encode for i8 {
    open spec fn spec_encoding(width: PointerWidth) -> EncodingView {
        EncodingView::Primitive(Primitive::Char)
    }

    fn encoding(width: PointerWidth) -> (r: Encoding) {
        Encoding::Primitive(Primitive::Char)
    }
}

impl Encode for i16 {
    open spec fn spec_encoding(width: PointerWidth) -> EncodingView {
        EncodingView::Primitive(Primitive::Short)
    }

    fn encoding(width: PointerWidth) -> (r: Encoding) {
        Encoding::Primitive(Primitive::Short)
    }
}

impl Encode for i32 {
    open spec fn spec_encoding(width: PointerWidth) -> EncodingView {
        EncodingView::Primitive(Primitive::Int)
    }

    fn encoding(width: PointerWidth) -> (r: Encoding) {
        Encoding::Primitive(Primitive::Int)
    }
}

impl Encode for i64 {
    open spec fn spec_encoding(width: PointerWidth) -> EncodingView {
        EncodingView::Primitive(Primitive::LongLong)
    }

    fn encoding(width: PointerWidth) -> (r: Encoding) {
        Encoding::Primitive(Primitive::LongLong)
    }
}

impl Encode for isize {
    open spec fn spec_encoding(width: PointerWidth) -> EncodingView {
        pointer_sized(width, true)
    }

    fn encoding(width: PointerWidth) -> (r: Encoding) {
        match width {
            PointerWidth::Bits64 => Encoding::Primitive(Primitive::LongLong),
            PointerWidth::Bits32 => Encoding::Primitive(Primitive::Int),
        }
    }
}

impl Encode for u8 {
    open spec fn spec_encoding(width: PointerWidth) -> EncodingView {
        EncodingView::Primitive(Primitive::UChar)
    }

    fn encoding(width: PointerWidth) -> (r: Encoding) {
        Encoding::Primitive(Primitive::UChar)
    }
}

impl Encode for u16 {
    open spec fn spec_encoding(width: PointerWidth) -> EncodingView {
        EncodingView::Primitive(Primitive::UShort)
    }

    fn encoding(width: PointerWidth) -> (r: Encoding) {
        Encoding::Primitive(Primitive::UShort)
    }
}

impl Encode for u32 {
    open spec fn spec_encoding(width: PointerWidth) -> EncodingView {
        EncodingView::Primitive(Primitive::UInt)
    }

    fn encoding(width: PointerWidth) -> (r: Encoding) {
        Encoding::Primitive(Primitive::UInt)
    }
}

impl Encode for u64 {
    open spec fn spec_encoding(width: PointerWidth) -> EncodingView {
        EncodingView::Primitive(Primitive::ULongLong)
    }

    fn encoding(width: PointerWidth) -> (r: Encoding) {
        Encoding::Primitive(Primitive::ULongLong)
    }
}

impl Encode for usize {
    open spec fn spec_encoding(width: PointerWidth) -> EncodingView {
        pointer_sized(width, false)
    }

    fn encoding(width: PointerWidth) -> (r: Encoding) {
        match width {
            PointerWidth::Bits64 => Encoding::Primitive(Primitive::ULongLong),
            PointerWidth::Bits32 => Encoding::Primitive(Primitive::UInt),
        }
    }
}

impl Encode for bool {
    open spec fn spec_encoding(width: PointerWidth) -> EncodingView {
        EncodingView::Primitive(Primitive::Bool)
    }

    fn encoding(width: PointerWidth) -> (r: Encoding) {
        Encoding::Primitive(Primitive::Bool)
    }
}

impl Encode for () {
    open spec fn spec_encoding(width: PointerWidth) -> EncodingView {
        EncodingView::Primitive(Primitive::Void)
    }

    fn encoding(width: PointerWidth) -> (r: Encoding) {
        Encoding::Primitive(Primitive::Void)
    }
}

impl Encode for RawHandle {
    open spec fn spec_encoding(width: PointerWidth) -> EncodingView {
        EncodingView::Primitive(Primitive::Object)
    }

    fn encoding(width: PointerWidth) -> (r: Encoding) {
        Encoding::Primitive(Primitive::Object)
    }
}

impl Encode for Sel {
    open spec fn spec_encoding(width: PointerWidth) -> EncodingView {
        EncodingView::Primitive(Primitive::Sel)
    }

    fn encoding(width: PointerWidth) -> (r: Encoding) {
        Encoding::Primitive(Primitive::Sel)
    }
}

impl Encode for ClassId {
    open spec fn spec_encoding(width: PointerWidth) -> EncodingView {
        EncodingView::Primitive(Primitive::Class)
    }

    fn encoding(width: PointerWidth) -> (r: Encoding) {
        Encoding::Primitive(Primitive::Class)
    }
}

impl Encode for NSImageResizingMode {
    open spec fn spec_encoding(width: PointerWidth) -> EncodingView {
        spec_ns_integer_encoding(width)
    }

    fn encoding(width: PointerWidth) -> (r: Encoding) {
        NSImageResizingMode::encoding(width)
    }
}

impl<T: Encode, const N: usize> Encode for [T; N] {
    open spec fn spec_encoding(width: PointerWidth) -> EncodingView {
        EncodingView::Array(N as u64, Box::new(T::spec_encoding(width)))
    }

    fn encoding(width: PointerWidth) -> (r: Encoding) {
        Encoding::Array(N as u64, Box::new(T::encoding(width)))
    }
}

impl<T: Encode> Encode for Box<T> {
    open spec fn spec_encoding(width: PointerWidth) -> EncodingView {
        EncodingView::Pointer(Box::new(T::spec_encoding(width)))
    }

    fn encoding(width: PointerWidth) -> (r: Encoding) {
        Encoding::Pointer(Box::new(T::encoding(width)))
    }
}

} // verus!
