//! Message dispatch. A send is planned before anything is called: a null
//! receiver yields the zero value of the result, the number of arguments
//! is held against the selector, the method is resolved along the
//! receiver's superclass chain, the encodings of the call site are held
//! against the declared signature, and the shape of the raw call is
//! chosen by the result's encoding. The raw result is decoded afterwards.

use vstd::prelude::*;
use crate::class::{ClassId, ClassView, Imp, MethodView, lookup_spec};
use crate::compat::{compatible, signatures_match};
use crate::encoding::{Encoding, EncodingView, Primitive, views_of, lemma_view_aggregate};
use crate::error::Error;
use crate::heap::RawHandle;
use crate::layout::{Abi, Layout, PointerWidth, ReturnShape, classify, classify_spec, layout, layout_is, layout_spec};
use crate::runtime::{Runtime, RuntimeView};
use crate::selector::{Sel, arity, arity_spec};

verus! {

/// What a message is sent to: an object, by its handle, or a class.
#[derive(Clone, Copy, Debug, PartialEq, Eq, Hash, Structural)]
pub enum Receiver {
    /// An object; the null handle stands for no object.
    Object(RawHandle),
    /// A class, which answers with its own method table and those of
    /// its superclasses.
    Class(ClassId),
}

impl Receiver {
    /// Whether the receiver is the null handle.
    pub open spec fn is_nil(self) -> bool {
        self matches Receiver::Object(h) && h.0 == 0
    }
}

/// The class in whose method table the lookup for a receiver begins: the
/// class of a live object, or the class itself where it is registered.
pub open spec fn receiver_class(rt: RuntimeView, receiver: Receiver) -> Option<ClassId> {
    match receiver {
        Receiver::Object(h) => rt.class_of(h),
        Receiver::Class(cls) => if cls.0 < rt.classes.len() {
            Some(cls)
        } else {
            None
        },
    }
}

/// What a send comes to, before anything is called.
#[derive(Clone, Copy, Debug, PartialEq, Eq, Structural)]
pub enum Plan {
    /// The receiver is null: nothing is called, and the result is the
    /// zero value of its encoding.
    Nil,
    /// The entry point `imp`, which the class `owner` holds, is called
    /// once, in the raw call shape `shape`.
    Call { imp: Imp, owner: ClassId, shape: ReturnShape },
}

/// A result as the raw call hands it back.
#[derive(Debug, PartialEq, Eq)]
pub enum Raw {
    /// The content of the return register.
    Word(u64),
    /// The bytes of an aggregate.
    Bytes(Vec<u8>),
}

/// A decoded result.
#[derive(Debug, PartialEq, Eq)]
pub enum Value {
    Void,
    Signed(i64),
    Unsigned(u64),
    Bool(bool),
    /// The bits of a single-precision number.
    Single(u32),
    /// The bits of a double-precision number.
    Double(u64),
    /// An object, a class or a block.
    Handle(RawHandle),
    /// A pointer, a C string, a selector or a function pointer.
    Address(u64),
    /// The bytes of an array, a struct or a union.
    Aggregate(Vec<u8>),
}

/// The mathematical value of a [`Raw`].
pub enum RawView {
    Word(u64),
    Bytes(Seq<u8>),
}

/// The mathematical value of a [`Value`].
pub enum ValueView {
    Void,
    Signed(i64),
    Unsigned(u64),
    Bool(bool),
    Single(u32),
    Double(u64),
    Handle(RawHandle),
    Address(u64),
    Aggregate(Seq<u8>),
}

impl View for Raw {
    type V = RawView;

    open spec fn view(&self) -> RawView {
        match self {
            Raw::Word(w) => RawView::Word(*w),
            Raw::Bytes(b) => RawView::Bytes(b@),
        }
    }
}

impl View for Value {
    type V = ValueView;

    open spec fn view(&self) -> ValueView {
        match self {
            Value::Void => ValueView::Void,
            Value::Signed(v) => ValueView::Signed(*v),
            Value::Unsigned(v) => ValueView::Unsigned(*v),
            Value::Bool(v) => ValueView::Bool(*v),
            Value::Single(v) => ValueView::Single(*v),
            Value::Double(v) => ValueView::Double(*v),
            Value::Handle(h) => ValueView::Handle(*h),
            Value::Address(a) => ValueView::Address(*a),
            Value::Aggregate(b) => ValueView::Aggregate(b@),
        }
    }
}

// ---------------------------------------------------------------------
// Planning
// ---------------------------------------------------------------------

/// What a send of `sel` to `receiver` comes to, for a call site with the
/// argument encodings `args` and the result encoding `ret`. A selector
/// that was not interned, and a receiver that is neither a live object
/// nor a registered class, have no method.
pub open spec fn plan_spec(
    rt: RuntimeView,
    receiver: Receiver,
    sel: Sel,
    args: Seq<EncodingView>,
    ret: EncodingView,
) -> Result<Plan, Error> {
    if receiver.is_nil() {
        Ok(Plan::Nil)
    } else if sel.0 >= rt.selectors.len() {
        Err(Error::MethodNotFound)
    } else if args.len() != arity_spec(rt.selectors[sel.0 as int]) {
        Err(Error::SignatureMismatch)
    } else {
        match receiver_class(rt, receiver) {
            None => Err(Error::MethodNotFound),
            Some(cls) => match lookup_spec(rt.classes, cls.0 as int, sel) {
                None => Err(Error::MethodNotFound),
                Some((owner, entry)) => if signatures_match(entry.args, args, rt.aliases)
                    && compatible(entry.ret, ret, rt.aliases) {
                    Ok(
                        Plan::Call {
                            imp: entry.imp,
                            owner: ClassId(owner as usize),
                            shape: classify_spec(ret, rt.abi),
                        },
                    )
                } else {
                    Err(Error::SignatureMismatch)
                },
            },
        }
    }
}

/// Plans a send. Nothing is called.
pub fn plan(rt: &Runtime, receiver: Receiver, sel: Sel, args: &Vec<Encoding>, ret: &Encoding) -> (r:
    Result<Plan, Error>)
    requires
        rt.wf(),
    ensures
        r == plan_spec(rt@, receiver, sel, views_of(args@), ret@),
{
    match receiver {
        Receiver::Object(h) => {
            if h.0 == 0 {
                return Ok(Plan::Nil);
            }
        },
        Receiver::Class(_) => {},
    }
    let name = match rt.selector_name(sel) {
        Some(name) => name,
        None => {
            return Err(Error::MethodNotFound);
        },
    };
    if arity(name) != args.len() {
        return Err(Error::SignatureMismatch);
    }
    let found = match receiver {
        Receiver::Object(h) => rt.class_of(h),
        Receiver::Class(cls) => if cls.0 < rt.class_count() {
            Some(cls)
        } else {
            None
        },
    };
    let cls = match found {
        Some(cls) => cls,
        None => {
            return Err(Error::MethodNotFound);
        },
    };
    match rt.lookup(cls, sel) {
        None => Err(Error::MethodNotFound),
        Some((owner, entry)) => {
            let aliases = rt.aliases();
            if aliases.matches(&entry.args, args) && aliases.compatible(&entry.ret, ret) {
                let abi = rt.abi();
                Ok(Plan::Call { imp: entry.imp, owner, shape: classify(ret, &abi) })
            } else {
                Err(Error::SignatureMismatch)
            }
        },
    }
}

/// A send to an object or a class with fewer or more arguments than the
/// selector has colons fails with `SignatureMismatch`; as planning calls nothing,
/// nothing has been called by then.
pub proof fn lemma_wrong_arity_is_mismatch(
    rt: RuntimeView,
    receiver: Receiver,
    sel: Sel,
    args: Seq<EncodingView>,
    ret: EncodingView,
)
    requires
        !receiver.is_nil(),
        sel.0 < rt.selectors.len(),
        args.len() != arity_spec(rt.selectors[sel.0 as int]),
    ensures
        plan_spec(rt, receiver, sel, args, ret) == Err::<Plan, Error>(Error::SignatureMismatch),
{
}

/// A send of a selector that no class on the receiver's superclass chain
/// answers fails with `MethodNotFound`, where the number of arguments
/// suits the selector.
pub proof fn lemma_unanswered_is_not_found(
    rt: RuntimeView,
    receiver: Receiver,
    sel: Sel,
    args: Seq<EncodingView>,
    ret: EncodingView,
)
    requires
        !receiver.is_nil(),
        sel.0 < rt.selectors.len(),
        args.len() == arity_spec(rt.selectors[sel.0 as int]),
        receiver_class(rt, receiver) matches Some(cls) ==> lookup_spec(
            rt.classes,
            cls.0 as int,
            sel,
        ) is None,
    ensures
        plan_spec(rt, receiver, sel, args, ret) == Err::<Plan, Error>(Error::MethodNotFound),
{
}

/// A send to the null receiver never fails.
pub proof fn lemma_nil_receiver(
    rt: RuntimeView,
    sel: Sel,
    args: Seq<EncodingView>,
    ret: EncodingView,
)
    ensures
        plan_spec(rt, Receiver::Object(RawHandle(0)), sel, args, ret) == Ok::<Plan, Error>(
            Plan::Nil,
        ),
{
}

// ---------------------------------------------------------------------
// Decoding
// ---------------------------------------------------------------------

/// The value of a scalar kind that the return register `w` holds: the
/// low bits of the kind's width, signed or unsigned as the kind is.
pub open spec fn decode_word(p: Primitive, w: u64) -> ValueView {
    match p {
        Primitive::Void => ValueView::Void,
        Primitive::Char => ValueView::Signed((w as i8) as i64),
        Primitive::Short => ValueView::Signed((w as i16) as i64),
        Primitive::Int | Primitive::Long => ValueView::Signed((w as i32) as i64),
        Primitive::LongLong => ValueView::Signed(w as i64),
        Primitive::UChar => ValueView::Unsigned((w as u8) as u64),
        Primitive::UShort => ValueView::Unsigned((w as u16) as u64),
        Primitive::UInt | Primitive::ULong => ValueView::Unsigned((w as u32) as u64),
        Primitive::ULongLong => ValueView::Unsigned(w),
        Primitive::Bool => ValueView::Bool((w as u8) != 0),
        Primitive::Float => ValueView::Single(w as u32),
        Primitive::Double => ValueView::Double(w),
        Primitive::Object | Primitive::Class | Primitive::Block => ValueView::Handle(
            RawHandle(w as usize),
        ),
        Primitive::String | Primitive::Sel | Primitive::Unknown => ValueView::Address(w),
    }
}

/// The value that the raw result `raw` stands for under the encoding
/// `ret`. A scalar is read from the return register; an aggregate is the
/// returned bytes, which must be as many as the encoding's size. A raw
/// result of the other form is a mismatch; `void` takes either.
pub open spec fn decode_spec(ret: EncodingView, width: PointerWidth, raw: RawView) -> Result<
    ValueView,
    Error,
> {
    match ret {
        EncodingView::Primitive(Primitive::Void) => Ok(ValueView::Void),
        EncodingView::Primitive(p) => match raw {
            RawView::Word(w) => Ok(decode_word(p, w)),
            RawView::Bytes(_) => Err(Error::SignatureMismatch),
        },
        EncodingView::Pointer(_) => match raw {
            RawView::Word(w) => Ok(ValueView::Address(w)),
            RawView::Bytes(_) => Err(Error::SignatureMismatch),
        },
        _ => match raw {
            RawView::Word(_) => Err(Error::SignatureMismatch),
            RawView::Bytes(b) => match layout_spec(ret, width) {
                Some((size, _)) => if b.len() == size {
                    Ok(ValueView::Aggregate(b))
                } else {
                    Err(Error::SignatureMismatch)
                },
                None => Err(Error::SignatureMismatch),
            },
        },
    }
}

/// The zero value of an encoding: what a send to the null receiver
/// yields. For an aggregate it is as many zero bytes as the encoding's
/// size, and no bytes where the size is unknown or beyond the address
/// space.
pub open spec fn zero_value_spec(ret: EncodingView, width: PointerWidth) -> ValueView {
    match ret {
        EncodingView::Primitive(p) => decode_word(p, 0),
        EncodingView::Pointer(_) => ValueView::Address(0),
        _ => match layout_spec(ret, width) {
            Some((size, _)) => if size <= usize::MAX {
                ValueView::Aggregate(Seq::new(size, |i: int| 0u8))
            } else {
                ValueView::Aggregate(Seq::empty())
            },
            None => ValueView::Aggregate(Seq::empty()),
        },
    }
}

fn decode_word_exec(p: Primitive, w: u64) -> (r: Value)
    ensures
        r@ == decode_word(p, w),
{
    match p {
        Primitive::Void => Value::Void,
        Primitive::Char => Value::Signed((#[verifier::truncate] (w as i8)) as i64),
        Primitive::Short => Value::Signed((#[verifier::truncate] (w as i16)) as i64),
        Primitive::Int => Value::Signed((#[verifier::truncate] (w as i32)) as i64),
        Primitive::Long => Value::Signed((#[verifier::truncate] (w as i32)) as i64),
        Primitive::LongLong => Value::Signed(#[verifier::truncate] (w as i64)),
        Primitive::UChar => Value::Unsigned((#[verifier::truncate] (w as u8)) as u64),
        Primitive::UShort => Value::Unsigned((#[verifier::truncate] (w as u16)) as u64),
        Primitive::UInt => Value::Unsigned((#[verifier::truncate] (w as u32)) as u64),
        Primitive::ULong => Value::Unsigned((#[verifier::truncate] (w as u32)) as u64),
        Primitive::ULongLong => Value::Unsigned(w),
        Primitive::Bool => Value::Bool((#[verifier::truncate] (w as u8)) != 0),
        Primitive::Float => Value::Single(#[verifier::truncate] (w as u32)),
        Primitive::Double => Value::Double(w),
        Primitive::Object => Value::Handle(RawHandle(#[verifier::truncate] (w as usize))),
        Primitive::Class => Value::Handle(RawHandle(#[verifier::truncate] (w as usize))),
        Primitive::Block => Value::Handle(RawHandle(#[verifier::truncate] (w as usize))),
        Primitive::String => Value::Address(w),
        Primitive::Sel => Value::Address(w),
        Primitive::Unknown => Value::Address(w),
    }
}

/// Whether `r` is the result that `spec` states.
pub open spec fn value_is(r: Result<Value, Error>, spec: Result<ValueView, Error>) -> bool {
    match r {
        Ok(v) => spec == Ok::<ValueView, Error>(v@),
        Err(e) => spec == Err::<ValueView, Error>(e),
    }
}

/// Decodes the raw result of a call under the result's encoding.
pub fn decode(ret: &Encoding, width: PointerWidth, raw: Raw) -> (r: Result<Value, Error>)
    ensures
        value_is(r, decode_spec(ret@, width, raw@)),
{
    match ret {
        Encoding::Primitive(p) => {
            match p {
                Primitive::Void => Ok(Value::Void),
                _ => match raw {
                    Raw::Word(w) => Ok(decode_word_exec(*p, w)),
                    Raw::Bytes(_) => Err(Error::SignatureMismatch),
                },
            }
        },
        Encoding::Pointer(_) => {
            match raw {
                Raw::Word(w) => Ok(Value::Address(w)),
                Raw::Bytes(_) => Err(Error::SignatureMismatch),
            }
        },
        _ => {
            proof {
                lemma_view_aggregate(*ret);
            }
            match raw {
                Raw::Word(_) => Err(Error::SignatureMismatch),
                Raw::Bytes(b) => {
                    match layout(ret, width) {
                        Some(l) => {
                            if b.len() as u64 == l.size {
                                Ok(Value::Aggregate(b))
                            } else {
                                Err(Error::SignatureMismatch)
                            }
                        },
                        None => Err(Error::SignatureMismatch),
                    }
                },
            }
        },
    }
}

/// The zero value of an encoding.
pub fn zero_value(ret: &Encoding, width: PointerWidth) -> (r: Value)
    ensures
        r@ == zero_value_spec(ret@, width),
{
    match ret {
        Encoding::Primitive(p) => decode_word_exec(*p, 0),
        Encoding::Pointer(_) => Value::Address(0),
        _ => {
            proof {
                lemma_view_aggregate(*ret);
            }
            let mut bytes: Vec<u8> = Vec::new();
            match layout(ret, width) {
                Some(l) => {
                    if l.size <= usize::MAX as u64 {
                        let mut i: usize = 0;
                        while i < l.size as usize
                            invariant
                                i <= l.size as usize,
                                bytes@.len() == i,
                                forall|k: int| 0 <= k < i ==> bytes@[k] == 0u8,
                            decreases l.size as usize - i,
                        {
                            bytes.push(0);
                            i = i + 1;
                        }
                        assert(bytes@ =~= Seq::new(l.size as nat, |i: int| 0u8));
                    } else {
                        assert(bytes@ =~= Seq::empty());
                    }
                },
                None => {
                    assert(bytes@ =~= Seq::empty());
                },
            }
            Value::Aggregate(bytes)
        },
    }
}

// ---------------------------------------------------------------------
// Sending
// ---------------------------------------------------------------------

/// Sends a message: plans the send, performs the one call through
/// `invoke`, and decodes what comes back. `invoke` stands for the raw
/// call: it is handed the runtime, the entry point and the call shape,
/// and is called once, and only where the plan is a call. Where the plan
/// fails, or the receiver is null, nothing is called and the runtime is
/// as it was.
pub fn send<F>(
    rt: &mut Runtime,
    receiver: Receiver,
    sel: Sel,
    args: &Vec<Encoding>,
    ret: &Encoding,
    invoke: F,
) -> (r: Result<Value, Error>) where F: FnOnce(&mut Runtime, Imp, ReturnShape) -> Raw
    requires
        old(rt).wf(),
        forall|inner: &mut Runtime, imp: Imp, owner: ClassId, shape: ReturnShape|
            *inner == *old(rt) && plan_spec(old(rt)@, receiver, sel, views_of(args@), ret@) == Ok::<
                Plan,
                Error,
            >(Plan::Call { imp, owner, shape }) ==> call_requires(invoke, (inner, imp, shape)),
        forall|inner: &mut Runtime, imp: Imp, shape: ReturnShape, raw: Raw|
            *inner == *old(rt) && call_ensures(invoke, (inner, imp, shape), raw) ==> final(inner).wf(),
    ensures
        final(rt).wf(),
        match plan_spec(old(rt)@, receiver, sel, views_of(args@), ret@) {
            Err(e) => r == Err::<Value, Error>(e) && *final(rt) == *old(rt),
            Ok(Plan::Nil) => value_is(
                r,
                Ok(zero_value_spec(ret@, old(rt)@.abi.pointer_width)),
            ) && *final(rt) == *old(rt),
            Ok(Plan::Call { imp, owner, shape }) => exists|inner: &mut Runtime, raw: Raw|
                *inner == *old(rt) && *final(inner) == *final(rt) && call_ensures(
                    invoke,
                    (inner, imp, shape),
                    raw,
                ) && value_is(r, decode_spec(ret@, old(rt)@.abi.pointer_width, raw@)),
        },
{
    let width = rt.abi().pointer_width;
    match plan(rt, receiver, sel, args, ret) {
        Err(e) => Err(e),
        Ok(Plan::Nil) => Ok(zero_value(ret, width)),
        Ok(Plan::Call { imp, owner, shape }) => {
            let raw = invoke(rt, imp, shape);
            decode(ret, width, raw)
        },
    }
}

} // verus!
