//! The trampoline of a host implementation. A method of a class that was
//! built here is implemented by a host function, which takes decoded
//! arguments and gives a decoded result. The trampoline stands between it
//! and the raw call: it decodes the raw arguments under the declared
//! encodings, calls the implementation once, and encodes the result under
//! the declared encoding of the result.

use vstd::prelude::*;
use crate::dispatch::{Raw, RawView, Receiver, Value, ValueView, decode, decode_spec, decode_word};
use crate::encoding::{Encoding, EncodingView, Primitive, views_of, lemma_view_aggregate};
use crate::error::Error;
use crate::heap::RawHandle;
use crate::layout::{PointerWidth, layout, layout_spec};
use crate::runtime::Runtime;
use crate::selector::Sel;

verus! {

/// Whether `v` is a value of the shape `e`.
pub open spec fn fits(e: EncodingView, width: PointerWidth, v: ValueView) -> bool {
    match e {
        EncodingView::Primitive(p) => match p {
            Primitive::Void => v is Void,
            Primitive::Char => v matches ValueView::Signed(x) && i8::MIN <= x <= i8::MAX,
            Primitive::Short => v matches ValueView::Signed(x) && i16::MIN <= x <= i16::MAX,
            Primitive::Int | Primitive::Long => v matches ValueView::Signed(x) && i32::MIN <= x
                <= i32::MAX,
            Primitive::LongLong => v is Signed,
            Primitive::UChar => v matches ValueView::Unsigned(x) && x <= u8::MAX,
            Primitive::UShort => v matches ValueView::Unsigned(x) && x <= u16::MAX,
            Primitive::UInt | Primitive::ULong => v matches ValueView::Unsigned(x) && x
                <= u32::MAX,
            Primitive::ULongLong => v is Unsigned,
            Primitive::Bool => v is Bool,
            Primitive::Float => v is Single,
            Primitive::Double => v is Double,
            Primitive::Object | Primitive::Class | Primitive::Block => v is Handle,
            Primitive::String | Primitive::Sel | Primitive::Unknown => v is Address,
        },
        EncodingView::Pointer(_) => v is Address,
        _ => v matches ValueView::Aggregate(b) && layout_spec(e, width) matches Some((size, _))
            && b.len() == size,
    }
}

/// The raw form of a value: a scalar fills the low bits of the return
/// register, and the bytes of an aggregate stand for themselves.
pub open spec fn encode_spec(v: ValueView) -> RawView {
    match v {
        ValueView::Void => RawView::Word(0),
        ValueView::Signed(x) => RawView::Word(x as u64),
        ValueView::Unsigned(x) => RawView::Word(x),
        ValueView::Bool(b) => RawView::Word(
            if b {
                1
            } else {
                0
            },
        ),
        ValueView::Single(bits) => RawView::Word(bits as u64),
        ValueView::Double(bits) => RawView::Word(bits),
        ValueView::Handle(h) => RawView::Word(h.0 as u64),
        ValueView::Address(a) => RawView::Word(a),
        ValueView::Aggregate(b) => RawView::Bytes(b),
    }
}

/// Decoding the raw form of a value of the shape `e` gives the value
/// back.
pub proof fn lemma_decode_inverts_encode(e: EncodingView, width: PointerWidth, v: ValueView)
    requires
        fits(e, width, v),
    ensures
        decode_spec(e, width, encode_spec(v)) == Ok::<ValueView, Error>(v),
{
    match v {
        ValueView::Signed(x) => {
            let w = x as u64;
            assert((w as i8) == (x as i8)) by (bit_vector)
                requires
                    w == x as u64,
            ;
            assert((w as i16) == (x as i16)) by (bit_vector)
                requires
                    w == x as u64,
            ;
            assert((w as i32) == (x as i32)) by (bit_vector)
                requires
                    w == x as u64,
            ;
            assert((w as i64) == x) by (bit_vector)
                requires
                    w == x as u64,
            ;
        },
        ValueView::Bool(b) => {
            assert((1u64 as u8) != 0) by (bit_vector);
            assert((0u64 as u8) == 0) by (bit_vector);
        },
        ValueView::Single(bits) => {
            let w = bits as u64;
            assert((w as u32) == bits) by (bit_vector)
                requires
                    w == bits as u64,
            ;
        },
        _ => {},
    }
}

/// Whether `r` is the result that `spec` states.
pub open spec fn raw_is(r: Result<Raw, Error>, spec: Result<RawView, Error>) -> bool {
    match r {
        Ok(raw) => spec == Ok::<RawView, Error>(raw@),
        Err(e) => spec == Err::<RawView, Error>(e),
    }
}

/// The raw form of `v` as a value of the shape `e`; a mismatch where `v`
/// is no value of that shape.
pub open spec fn encode_as(e: EncodingView, width: PointerWidth, v: ValueView) -> Result<
    RawView,
    Error,
> {
    if fits(e, width, v) {
        Ok(encode_spec(v))
    } else {
        Err(Error::SignatureMismatch)
    }
}

/// Whether the integer `x` lies between `low` and `high`.
fn within(x: i64, low: i64, high: i64) -> (r: bool)
    ensures
        r == (low <= x <= high),
{
    low <= x && x <= high
}

/// Encodes a value under the encoding `e`. Fails with
/// `SignatureMismatch` where the value is none of that shape.
pub fn encode(e: &Encoding, width: PointerWidth, value: Value) -> (r: Result<Raw, Error>)
    ensures
        raw_is(r, encode_as(e@, width, value@)),
{
    match e {
        Encoding::Primitive(p) => {
            match value {
                Value::Void => match p {
                    Primitive::Void => Ok(Raw::Word(0)),
                    _ => Err(Error::SignatureMismatch),
                },
                Value::Signed(x) => {
                    let ok = match p {
                        Primitive::Char => within(x, -128, 127),
                        Primitive::Short => within(x, -32768, 32767),
                        Primitive::Int => within(x, -2147483648, 2147483647),
                        Primitive::Long => within(x, -2147483648, 2147483647),
                        Primitive::LongLong => true,
                        _ => false,
                    };
                    if ok {
                        Ok(Raw::Word(#[verifier::truncate] (x as u64)))
                    } else {
                        Err(Error::SignatureMismatch)
                    }
                },
                Value::Unsigned(x) => {
                    let ok = match p {
                        Primitive::UChar => x <= 255,
                        Primitive::UShort => x <= 65535,
                        Primitive::UInt => x <= 4294967295,
                        Primitive::ULong => x <= 4294967295,
                        Primitive::ULongLong => true,
                        _ => false,
                    };
                    if ok {
                        Ok(Raw::Word(x))
                    } else {
                        Err(Error::SignatureMismatch)
                    }
                },
                Value::Bool(b) => match p {
                    Primitive::Bool => Ok(
                        Raw::Word(
                            if b {
                                1
                            } else {
                                0
                            },
                        ),
                    ),
                    _ => Err(Error::SignatureMismatch),
                },
                Value::Single(bits) => match p {
                    Primitive::Float => Ok(Raw::Word(bits as u64)),
                    _ => Err(Error::SignatureMismatch),
                },
                Value::Double(bits) => match p {
                    Primitive::Double => Ok(Raw::Word(bits)),
                    _ => Err(Error::SignatureMismatch),
                },
                Value::Handle(h) => match p {
                    Primitive::Object => Ok(Raw::Word(h.0 as u64)),
                    Primitive::Class => Ok(Raw::Word(h.0 as u64)),
                    Primitive::Block => Ok(Raw::Word(h.0 as u64)),
                    _ => Err(Error::SignatureMismatch),
                },
                Value::Address(a) => match p {
                    Primitive::String => Ok(Raw::Word(a)),
                    Primitive::Sel => Ok(Raw::Word(a)),
                    Primitive::Unknown => Ok(Raw::Word(a)),
                    _ => Err(Error::SignatureMismatch),
                },
                Value::Aggregate(_) => Err(Error::SignatureMismatch),
            }
        },
        Encoding::Pointer(_) => {
            match value {
                Value::Address(a) => Ok(Raw::Word(a)),
                _ => Err(Error::SignatureMismatch),
            }
        },
        _ => {
            proof {
                lemma_view_aggregate(*e);
            }
            match value {
                Value::Aggregate(b) => {
                    match layout(e, width) {
                        Some(l) => {
                            if b.len() as u64 == l.size {
                                Ok(Raw::Bytes(b))
                            } else {
                                Err(Error::SignatureMismatch)
                            }
                        },
                        None => Err(Error::SignatureMismatch),
                    }
                },
                _ => Err(Error::SignatureMismatch),
            }
        },
    }
}

/// The views of a list of raw values.
pub open spec fn raws_of(raws: Seq<Raw>) -> Seq<RawView> {
    Seq::new(raws.len(), |i: int| raws[i]@)
}

/// The views of a list of values.
pub open spec fn values_of(values: Seq<Value>) -> Seq<ValueView> {
    Seq::new(values.len(), |i: int| values[i]@)
}

/// Whether the raw arguments are as many as the declared encodings, and
/// each can be decoded under its encoding.
pub open spec fn arguments_decode(
    encodings: Seq<EncodingView>,
    width: PointerWidth,
    raws: Seq<RawView>,
) -> bool {
    &&& raws.len() == encodings.len()
    &&& forall|i: int|
        0 <= i < encodings.len() ==> decode_spec(#[trigger] encodings[i], width, raws[i]) is Ok
}

/// The decoded arguments.
pub open spec fn decoded_arguments(
    encodings: Seq<EncodingView>,
    width: PointerWidth,
    raws: Seq<RawView>,
) -> Seq<ValueView> {
    Seq::new(encodings.len(), |i: int| decode_spec(encodings[i], width, raws[i])->Ok_0)
}

/// Decodes the raw arguments of a call under the declared encodings.
/// Fails with `SignatureMismatch` where they are not as many as the
/// encodings or one of them cannot be decoded.
pub fn decode_arguments(encodings: &Vec<Encoding>, width: PointerWidth, raws: Vec<Raw>) -> (r:
    Result<Vec<Value>, Error>)
    ensures
        match r {
            Ok(values) => arguments_decode(views_of(encodings@), width, raws_of(raws@))
                && values_of(values@) == decoded_arguments(
                views_of(encodings@),
                width,
                raws_of(raws@),
            ),
            Err(e) => e == Error::SignatureMismatch && !arguments_decode(
                views_of(encodings@),
                width,
                raws_of(raws@),
            ),
        },
{
    if raws.len() != encodings.len() {
        return Err(Error::SignatureMismatch);
    }
    let ghost given = raws_of(raws@);
    let ghost shapes = views_of(encodings@);
    // The arguments still to be decoded, the next one last.
    let mut stack: Vec<Raw> = Vec::new();
    let mut source = raws;
    while source.len() > 0
        invariant
            source.len() + stack.len() == given.len(),
            forall|k: int| 0 <= k < source.len() ==> (#[trigger] source@[k])@ == given[k],
            forall|k: int|
                0 <= k < stack.len() ==> (#[trigger] stack@[k])@ == given[given.len() - 1 - k],
        decreases source.len(),
    {
        let raw = source.pop().unwrap();
        stack.push(raw);
    }
    let mut values: Vec<Value> = Vec::new();
    let mut failed: bool = false;
    while stack.len() > 0 && !failed
        invariant
            given.len() == encodings.len(),
            shapes == views_of(encodings@),
            failed || values.len() + stack.len() == given.len(),
            forall|k: int|
                0 <= k < stack.len() ==> (#[trigger] stack@[k])@ == given[given.len() - 1 - k],
            forall|k: int|
                0 <= k < values.len() ==> decode_spec(#[trigger] shapes[k], width, given[k])
                    == Ok::<ValueView, Error>(values@[k]@),
            failed ==> !arguments_decode(shapes, width, given),
        decreases stack.len(),
    {
        let at = values.len();
        let raw = stack.pop().unwrap();
        assert(raw@ == given[at as int]);
        match decode(&encodings[at], width, raw) {
            Ok(value) => {
                values.push(value);
            },
            Err(_) => {
                assert(!(decode_spec(shapes[at as int], width, given[at as int]) is Ok));
                failed = true;
            },
        }
    }
    if failed {
        return Err(Error::SignatureMismatch);
    }
    assert(values_of(values@) =~= decoded_arguments(shapes, width, given));
    Ok(values)
}

/// Calls a host implementation through its trampoline: decodes the raw
/// arguments under the declared encodings `args`, calls `implementation`
/// once with the receiver, the selector and the decoded arguments, and
/// encodes what it gives under the declared encoding `ret`. Where the
/// arguments cannot be decoded, nothing is called and the runtime is as
/// it was; where the result is no value of the declared shape, the call
/// fails with `SignatureMismatch` after the implementation has run.
pub fn trampoline<F>(
    rt: &mut Runtime,
    args: &Vec<Encoding>,
    ret: &Encoding,
    receiver: Receiver,
    sel: Sel,
    raws: Vec<Raw>,
    implementation: F,
) -> (r: Result<Raw, Error>) where F: FnOnce(&mut Runtime, Receiver, Sel, Vec<Value>) -> Value
    requires
        old(rt).wf(),
        forall|inner: &mut Runtime, values: Vec<Value>|
            *inner == *old(rt) && values_of(values@) == decoded_arguments(
                views_of(args@),
                old(rt)@.abi.pointer_width,
                raws_of(raws@),
            ) ==> call_requires(implementation, (inner, receiver, sel, values)),
        forall|inner: &mut Runtime, values: Vec<Value>, value: Value|
            *inner == *old(rt) && call_ensures(
                implementation,
                (inner, receiver, sel, values),
                value,
            ) ==> final(inner).wf(),
    ensures
        final(rt).wf(),
        !arguments_decode(views_of(args@), old(rt)@.abi.pointer_width, raws_of(raws@)) ==> r
            == Err::<Raw, Error>(Error::SignatureMismatch) && *final(rt) == *old(rt),
        arguments_decode(views_of(args@), old(rt)@.abi.pointer_width, raws_of(raws@))
            ==> exists|inner: &mut Runtime, values: Vec<Value>, value: Value|
            *inner == *old(rt) && *final(inner) == *final(rt) && values_of(values@)
                == decoded_arguments(
                views_of(args@),
                old(rt)@.abi.pointer_width,
                raws_of(raws@),
            ) && call_ensures(implementation, (inner, receiver, sel, values), value) && raw_is(
                r,
                encode_as(ret@, old(rt)@.abi.pointer_width, value@),
            ),
{
    let width = rt.abi().pointer_width;
    match decode_arguments(args, width, raws) {
        Err(e) => Err(e),
        Ok(values) => {
            let value = implementation(rt, receiver, sel, values);
            encode(ret, width, value)
        },
    }
}

} // verus!
