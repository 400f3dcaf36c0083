//! Enumerations of AppKit whose numeric values differ between target ABIs.

use vstd::prelude::*;
use crate::encoding::{Encoding, EncodingView, Primitive};
use crate::layout::PointerWidth;

verus! {

/// Processor family of the compilation target.
#[derive(Clone, Copy, Debug, PartialEq, Eq, Structural)]
pub enum Arch {
    X86,
    X86_64,
    Arm,
    Aarch64,
    Other,
}

/// Operating system of the compilation target.
#[derive(Clone, Copy, Debug, PartialEq, Eq, Structural)]
pub enum Os {
    MacOs,
    Ios,
    TvOs,
    WatchOs,
    Other,
}

/// The compilation target, as far as value tables depend on it.
#[derive(Clone, Copy, Debug, PartialEq, Eq, Structural)]
pub struct Target {
    pub arch: Arch,
    pub os: Os,
}

/// The platform's signed integer of pointer width.
pub type NSInteger = isize;

/// Whether the target numbers its enumerators as iOS does: every target
/// except Intel macOS.
pub open spec fn spec_target_abi_uses_ios_values(target: Target) -> bool {
    !(target.arch == Arch::X86 || target.arch == Arch::X86_64) || target.os != Os::MacOs
}

#[verifier::when_used_as_spec(spec_target_abi_uses_ios_values)]
pub fn target_abi_uses_ios_values(target: Target) -> (r: bool)
    ensures
        r == spec_target_abi_uses_ios_values(target),
{
    let intel = match target.arch {
        Arch::X86 => true,
        Arch::X86_64 => true,
        _ => false,
    };
    let macos = match target.os {
        Os::MacOs => true,
        _ => false,
    };
    !intel || !macos
}

/// The encoding of `NSInteger`.
pub open spec fn spec_ns_integer_encoding(width: PointerWidth) -> EncodingView {
    match width {
        PointerWidth::Bits64 => EncodingView::Primitive(Primitive::LongLong),
        PointerWidth::Bits32 => EncodingView::Primitive(Primitive::Int),
    }
}

/// How an image is resized to fill its destination.
#[derive(Clone, Copy, Debug, PartialEq, Eq, Hash, PartialOrd, Ord, Structural)]
pub struct NSImageResizingMode(pub NSInteger);

impl NSImageResizingMode {
    /// The value of `NSImageResizingModeStretch` on `target`.
    pub fn stretch(target: Target) -> (r: Self)
        ensures
            r.0 == (if spec_target_abi_uses_ios_values(target) { 0isize } else { 1isize }),
    {
        if target_abi_uses_ios_values(target) {
            NSImageResizingMode(0)
        } else {
            NSImageResizingMode(1)
        }
    }

    /// The encoding of the type, which is that of `NSInteger`: a 64-bit
    /// integer where pointers have 64 bits, and a 32-bit one elsewhere.
    pub fn encoding(width: PointerWidth) -> (r: Encoding)
        ensures
            r@ == spec_ns_integer_encoding(width),
    {
        match width {
            PointerWidth::Bits64 => Encoding::Primitive(Primitive::LongLong),
            PointerWidth::Bits32 => Encoding::Primitive(Primitive::Int),
        }
    }

    /// The encoding of a reference to a value of the type.
    pub fn encoding_ref(width: PointerWidth) -> (r: Encoding)
        ensures
            r@ == EncodingView::Pointer(Box::new(spec_ns_integer_encoding(width))),
    {
        Encoding::Pointer(Box::new(NSImageResizingMode::encoding(width)))
    }

    /// The value of `NSImageResizingModeTile` on `target`.
    pub fn tile(target: Target) -> (r: Self)
        ensures
            r.0 == (if spec_target_abi_uses_ios_values(target) { 1isize } else { 0isize }),
    {
        if target_abi_uses_ios_values(target) {
            NSImageResizingMode(1)
        } else {
            NSImageResizingMode(0)
        }
    }
}

} // verus!
