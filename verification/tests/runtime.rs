use objc_core::autorelease::ScopeGuard;
use objc_core::builder::ClassBuilder;
use objc_core::class::{ClassId, Imp};
use objc_core::dispatch::{decode, plan, send, zero_value, Plan, Raw, Receiver, Value};
use objc_core::encoding::{Encoding, Primitive};
use objc_core::error::Error;
use objc_core::heap::RawHandle;
use objc_core::layout::{Abi, PointerWidth, ReturnShape};
use objc_core::rc::{Exclusive, Id, Shared};
use objc_core::runtime::Runtime;
use objc_core::selector::{arity, family, Family, Sel, SelectorTable};
use objc_core::trampoline::{decode_arguments, encode, trampoline};
use objc_core::weak::WeakRef;

fn prim(p: Primitive) -> Encoding {
    Encoding::Primitive(p)
}

fn abi() -> Abi {
    Abi {
        pointer_width: PointerWidth::Bits64,
        register_aggregate_limit: 16,
        float_path: false,
        double_path: false,
    }
}

fn register(rt: &mut Runtime, name: &[u8], superclass: Option<ClassId>) -> ClassId {
    ClassBuilder::new(rt, name.to_vec(), superclass)
        .unwrap()
        .finalize(rt)
        .unwrap()
}

/// A runtime with the class `Base` and one instance of it.
fn with_object() -> (Runtime, ClassId, RawHandle) {
    let mut rt = Runtime::new(abi());
    let base = register(&mut rt, b"Base", None);
    let h = rt.instantiate(base).unwrap();
    (rt, base, h)
}

#[test]
fn arity_is_the_number_of_colons() {
    assert_eq!(arity(&b"increment".to_vec()), 0);
    assert_eq!(arity(&b"setValue:".to_vec()), 1);
    assert_eq!(arity(&b"initWithString:attributes:".to_vec()), 2);
    assert_eq!(arity(&b":::".to_vec()), 3);
    assert_eq!(arity(&b"".to_vec()), 0);
}

#[test]
fn family_by_the_beginning_of_the_name() {
    assert_eq!(family(&b"alloc".to_vec()), Family::Owned);
    assert_eq!(family(&b"allocWithZone:".to_vec()), Family::Owned);
    assert_eq!(family(&b"new".to_vec()), Family::Owned);
    assert_eq!(family(&b"newWithValue:".to_vec()), Family::Owned);
    assert_eq!(family(&b"copy".to_vec()), Family::Owned);
    assert_eq!(family(&b"copyWithZone:".to_vec()), Family::Owned);
    assert_eq!(family(&b"mutableCopy".to_vec()), Family::Owned);
    assert_eq!(family(&b"mutableCopyWithZone:".to_vec()), Family::Owned);
    assert_eq!(family(&b"string".to_vec()), Family::Borrowed);
    assert_eq!(family(&b"init".to_vec()), Family::Borrowed);
    assert_eq!(family(&b"ne".to_vec()), Family::Borrowed);
    assert_eq!(family(&b"mutablecopy".to_vec()), Family::Borrowed);
    assert_eq!(family(&b"".to_vec()), Family::Borrowed);
    assert_eq!(family(&b"anew".to_vec()), Family::Borrowed);
}

#[test]
fn a_spelling_is_interned_once() {
    let mut table = SelectorTable::new();
    let a = table.intern(&b"description".to_vec());
    let b = table.intern(&b"setValue:".to_vec());
    let c = table.intern(&b"description".to_vec());
    assert_eq!(a, c);
    assert_ne!(a, b);
    assert_eq!(table.len(), 2);
    assert_eq!(table.name(a), Some(&b"description".to_vec()));
    assert_eq!(table.name(b), Some(&b"setValue:".to_vec()));
    assert_eq!(table.name(Sel(2)), None);
    assert_eq!(table.find(&b"setValue:".to_vec()), Some(b));
    assert_eq!(table.find(&b"setValue".to_vec()), None);
}

#[test]
fn the_runtime_interns_selectors() {
    let mut rt = Runtime::new(abi());
    assert_eq!(rt.find_selector(&b"count".to_vec()), None);
    let count = rt.intern(&b"count".to_vec());
    assert_eq!(rt.intern(&b"count".to_vec()), count);
    assert_eq!(rt.find_selector(&b"count".to_vec()), Some(count));
    assert_eq!(rt.selector_name(count), Some(&b"count".to_vec()));
    assert_eq!(rt.selector_name(Sel(7)), None);
}

#[test]
fn a_class_name_is_registered_once() {
    let mut rt = Runtime::new(abi());
    let base = register(&mut rt, b"Base", None);
    assert_eq!(base, ClassId(0));
    assert_eq!(rt.find_class(&b"Base".to_vec()), Some(base));
    assert_eq!(rt.find_class(&b"Other".to_vec()), None);
    assert_eq!(
        ClassBuilder::new(&rt, b"Base".to_vec(), None).err(),
        Some(Error::NameCollision)
    );
    // Two builders for one name: the second to be finalized fails.
    let first = ClassBuilder::new(&rt, b"Counter".to_vec(), Some(base)).unwrap();
    let second = ClassBuilder::new(&rt, b"Counter".to_vec(), Some(base)).unwrap();
    assert_eq!(first.finalize(&mut rt), Ok(ClassId(1)));
    assert_eq!(second.finalize(&mut rt), Err(Error::NameCollision));
    assert_eq!(rt.class_count(), 2);
}

#[test]
fn a_superclass_must_be_registered() {
    let mut rt = Runtime::new(abi());
    assert_eq!(
        ClassBuilder::new(&rt, b"Counter".to_vec(), Some(ClassId(0))).err(),
        Some(Error::UnknownClass)
    );
    let base = register(&mut rt, b"Base", None);
    assert!(ClassBuilder::new(&rt, b"Counter".to_vec(), Some(base)).is_ok());
    // A builder that was made for another runtime.
    let mut other = Runtime::new(abi());
    let stray = ClassBuilder::new(&rt, b"Stray".to_vec(), Some(base)).unwrap();
    assert_eq!(stray.finalize(&mut other), Err(Error::UnknownClass));
    assert_eq!(other.class_count(), 0);
    assert_eq!(rt.instantiate(ClassId(5)), Err(Error::UnknownClass));
}

#[test]
fn a_builder_checks_its_methods() {
    let rt = Runtime::new(abi());
    let mut b = ClassBuilder::new(&rt, b"Base".to_vec(), None).unwrap();
    assert_eq!(
        b.add_method(b"setValue:".to_vec(), vec![], prim(Primitive::Void), Imp(1)),
        Err(Error::SignatureMismatch)
    );
    assert_eq!(
        b.add_method(
            b"value".to_vec(),
            vec![prim(Primitive::Int)],
            prim(Primitive::Int),
            Imp(1)
        ),
        Err(Error::SignatureMismatch)
    );
    assert_eq!(
        b.add_method(
            b"setValue:".to_vec(),
            vec![prim(Primitive::Int)],
            prim(Primitive::Void),
            Imp(1)
        ),
        Ok(())
    );
    assert_eq!(
        b.add_method(
            b"setValue:".to_vec(),
            vec![prim(Primitive::Int)],
            prim(Primitive::Void),
            Imp(2)
        ),
        Err(Error::NameCollision)
    );
    assert_eq!(
        b.add_method(b"value".to_vec(), vec![], prim(Primitive::Int), Imp(2)),
        Ok(())
    );
}

#[test]
fn instance_variables_are_placed_behind_the_superclass() {
    let mut rt = Runtime::new(abi());
    let mut b = ClassBuilder::new(&rt, b"Base".to_vec(), None).unwrap();
    assert_eq!(b.add_ivar(b"flag".to_vec(), prim(Primitive::Char), 1, 1), Ok(()));
    assert_eq!(
        b.add_ivar(b"flag".to_vec(), prim(Primitive::Int), 4, 4),
        Err(Error::NameCollision)
    );
    assert_eq!(
        b.add_ivar(b"bad".to_vec(), prim(Primitive::Int), 4, 0),
        Err(Error::BadLayout)
    );
    assert_eq!(b.add_ivar(b"value".to_vec(), prim(Primitive::Int), 4, 4), Ok(()));
    let base = b.finalize(&mut rt).unwrap();
    assert_eq!(rt.class(base).unwrap().instance_size, 8);
    let flag = rt.ivar(base, &b"flag".to_vec()).unwrap();
    assert_eq!((flag.offset, flag.size, flag.align), (0, 1, 1));
    let value = rt.ivar(base, &b"value".to_vec()).unwrap();
    assert_eq!((value.offset, value.size, value.align), (4, 4, 4));

    let mut b = ClassBuilder::new(&rt, b"Counter".to_vec(), Some(base)).unwrap();
    assert_eq!(b.add_ivar(b"step".to_vec(), prim(Primitive::Short), 2, 2), Ok(()));
    assert_eq!(b.add_ivar(b"total".to_vec(), prim(Primitive::Double), 8, 8), Ok(()));
    let counter = b.finalize(&mut rt).unwrap();
    assert_eq!(rt.class(counter).unwrap().instance_size, 24);
    assert_eq!(rt.class(counter).unwrap().superclass, Some(base));
    assert_eq!(rt.ivar(counter, &b"step".to_vec()).unwrap().offset, 8);
    assert_eq!(rt.ivar(counter, &b"total".to_vec()).unwrap().offset, 16);
    // Instance variables of the superclass are found from the subclass.
    assert_eq!(rt.ivar(counter, &b"value".to_vec()).unwrap().offset, 4);
    assert!(rt.ivar(base, &b"step".to_vec()).is_none());
    assert!(rt.ivar(counter, &b"nothing".to_vec()).is_none());
    assert!(rt.ivar(ClassId(9), &b"value".to_vec()).is_none());
}

#[test]
fn an_instance_that_does_not_fit_is_refused() {
    let mut rt = Runtime::new(abi());
    let mut b = ClassBuilder::new(&rt, b"Huge".to_vec(), None).unwrap();
    assert_eq!(
        b.add_ivar(b"a".to_vec(), prim(Primitive::Char), u64::MAX, 1),
        Ok(())
    );
    assert_eq!(b.add_ivar(b"b".to_vec(), prim(Primitive::Char), 1, 1), Ok(()));
    assert_eq!(b.finalize(&mut rt), Err(Error::BadLayout));
    assert_eq!(rt.class_count(), 0);
    assert_eq!(rt.find_selector(&b"a".to_vec()), None);
}

#[test]
fn lookup_walks_the_superclass_chain() {
    let mut rt = Runtime::new(abi());
    let mut b = ClassBuilder::new(&rt, b"Base".to_vec(), None).unwrap();
    b.add_method(b"name".to_vec(), vec![], prim(Primitive::Object), Imp(10))
        .unwrap();
    b.add_method(b"value".to_vec(), vec![], prim(Primitive::Int), Imp(11))
        .unwrap();
    let base = b.finalize(&mut rt).unwrap();
    let mut b = ClassBuilder::new(&rt, b"Counter".to_vec(), Some(base)).unwrap();
    b.add_method(b"value".to_vec(), vec![], prim(Primitive::Int), Imp(20))
        .unwrap();
    let counter = b.finalize(&mut rt).unwrap();
    let leaf = register(&mut rt, b"Leaf", Some(counter));

    let name = rt.find_selector(&b"name".to_vec()).unwrap();
    let value = rt.find_selector(&b"value".to_vec()).unwrap();
    let unknown = rt.intern(&b"unknown".to_vec());

    let (owner, entry) = rt.lookup(leaf, value).unwrap();
    assert_eq!((owner, entry.imp), (counter, Imp(20)));
    let (owner, entry) = rt.lookup(base, value).unwrap();
    assert_eq!((owner, entry.imp), (base, Imp(11)));
    let (owner, entry) = rt.lookup(leaf, name).unwrap();
    assert_eq!((owner, entry.imp), (base, Imp(10)));
    assert!(rt.lookup(leaf, unknown).is_none());
    assert!(rt.lookup(ClassId(17), name).is_none());
    assert!(rt.lookup(leaf, Sel(99)).is_none());
}

#[test]
fn a_new_object_has_one_reference() {
    let (mut rt, base, h) = with_object();
    assert_eq!(h, RawHandle(1));
    assert_eq!(rt.retain_count(h), 1);
    assert_eq!(rt.class_of(h), Some(base));
    assert_eq!(rt.retain_count(RawHandle(0)), 0);
    assert_eq!(rt.retain_count(RawHandle(2)), 0);
    assert_eq!(rt.class_of(RawHandle(0)), None);
    let second = rt.instantiate(base).unwrap();
    assert_eq!(second, RawHandle(2));
    assert_eq!(rt.retain_count(second), 1);
}

#[test]
fn wrapping_the_null_handle_gives_nothing() {
    let (mut rt, _, _) = with_object();
    assert!(Id::<Exclusive>::wrap_owned(&rt, RawHandle(0)).is_none());
    assert!(Id::<Shared>::wrap_borrowed_then_retain(&mut rt, RawHandle(0)).is_none());
}

#[test]
fn destroying_every_duplicate_releases_the_object() {
    for n in [0usize, 1, 2, 5, 40] {
        let (mut rt, _, h) = with_object();
        let first = Id::<Exclusive>::wrap_owned(&rt, h)
            .unwrap()
            .into_shared(&mut rt);
        assert_eq!(rt.retain_count(h), 1);
        let mut handles: Vec<Id<Shared>> = Vec::new();
        for k in 0..n {
            handles.push(first.duplicate(&mut rt));
            assert_eq!(rt.retain_count(h), k as u64 + 2);
        }
        handles.push(first);
        let mut left = n as u64 + 1;
        for handle in handles {
            assert_eq!(rt.retain_count(h), left);
            handle.destroy(&mut rt);
            left -= 1;
            assert_eq!(rt.retain_count(h), left);
        }
        assert_eq!(rt.retain_count(h), 0);
        assert_eq!(rt.class_of(h), None);
    }
}

#[test]
fn wrap_owned_retains_nothing() {
    let (mut rt, _, h) = with_object();
    let id = Id::<Exclusive>::wrap_owned(&rt, h).unwrap();
    assert_eq!(id.as_raw(), h);
    assert_eq!(rt.retain_count(h), 1);
    id.destroy(&mut rt);
    assert_eq!(rt.retain_count(h), 0);
}

#[test]
fn wrap_borrowed_retains_once() {
    let (mut rt, _, h) = with_object();
    let owner = Id::<Exclusive>::wrap_owned(&rt, h).unwrap();
    let kept = Id::<Shared>::wrap_borrowed_then_retain(&mut rt, h).unwrap();
    assert_eq!(rt.retain_count(h), 2);
    owner.destroy(&mut rt);
    assert_eq!(rt.retain_count(h), 1);
    kept.destroy(&mut rt);
    assert_eq!(rt.retain_count(h), 0);
}

#[test]
fn handles_are_compared_by_address() {
    let (mut rt, base, h) = with_object();
    let other = rt.instantiate(base).unwrap();
    let a = Id::<Exclusive>::wrap_owned(&rt, h).unwrap();
    let b = Id::<Shared>::wrap_borrowed_then_retain(&mut rt, h).unwrap();
    let c = Id::<Exclusive>::wrap_owned(&rt, other).unwrap();
    assert!(a.ptr_eq(&b));
    assert!(b.ptr_eq(&a));
    assert!(!a.ptr_eq(&c));
    assert!(!c.ptr_eq(&b));
    a.destroy(&mut rt);
    b.destroy(&mut rt);
    c.destroy(&mut rt);
}

#[test]
fn an_autoreleased_object_lives_until_its_scope_ends() {
    let (mut rt, base, h) = with_object();
    let other = rt.instantiate(base).unwrap();
    let third = rt.instantiate(base).unwrap();
    let outer = ScopeGuard::enter(&mut rt);
    let id = Id::<Exclusive>::wrap_owned(&rt, h).unwrap();
    assert_eq!(id.autorelease(&mut rt).ok(), Some(h));
    assert_eq!(rt.retain_count(h), 1);
    // Other objects share the pool.
    let id = Id::<Exclusive>::wrap_owned(&rt, other).unwrap();
    assert_eq!(id.autorelease(&mut rt).ok(), Some(other));
    // An inner scope does not release what the outer pool holds.
    let inner = ScopeGuard::enter(&mut rt);
    assert!(inner.is_innermost(&rt));
    assert!(!outer.is_innermost(&rt));
    let id = Id::<Exclusive>::wrap_owned(&rt, third).unwrap();
    assert_eq!(id.autorelease(&mut rt).ok(), Some(third));
    assert_eq!(rt.retain_count(third), 1);
    inner.exit(&mut rt);
    assert_eq!(rt.retain_count(third), 0);
    assert_eq!(rt.retain_count(h), 1);
    assert_eq!(rt.retain_count(other), 1);
    assert!(outer.is_innermost(&rt));
    outer.exit(&mut rt);
    assert_eq!(rt.retain_count(h), 0);
    assert_eq!(rt.retain_count(other), 0);
    assert_eq!(rt.pool_depth(), 0);
}

#[test]
fn an_object_in_a_pool_twice_is_released_twice() {
    let (mut rt, _, h) = with_object();
    let guard = ScopeGuard::enter(&mut rt);
    let a = Id::<Exclusive>::wrap_owned(&rt, h).unwrap().into_shared(&mut rt);
    let b = a.duplicate(&mut rt);
    let c = a.duplicate(&mut rt);
    assert_eq!(rt.retain_count(h), 3);
    assert!(a.autorelease(&mut rt).is_ok());
    assert!(b.autorelease(&mut rt).is_ok());
    assert_eq!(rt.retain_count(h), 3);
    guard.exit(&mut rt);
    assert_eq!(rt.retain_count(h), 1);
    c.destroy(&mut rt);
    assert_eq!(rt.retain_count(h), 0);
}

#[test]
fn autorelease_outside_a_scope_is_refused() {
    let (mut rt, _, h) = with_object();
    let id = Id::<Exclusive>::wrap_owned(&rt, h).unwrap();
    let back = id.autorelease(&mut rt).unwrap_err();
    assert_eq!(back.as_raw(), h);
    assert_eq!(rt.retain_count(h), 1);
    assert_eq!(rt.pool_depth(), 0);
    back.destroy(&mut rt);
    assert_eq!(rt.retain_count(h), 0);
}

#[test]
fn a_weak_reference_is_empty_once_the_object_is_gone() {
    let (mut rt, _, h) = with_object();
    let strong = Id::<Exclusive>::wrap_owned(&rt, h).unwrap();
    let weak = WeakRef::register(&strong);
    let second = WeakRef::register(&strong);
    assert_eq!(rt.retain_count(h), 1);
    let loaded = weak.load(&mut rt).unwrap();
    assert_eq!(loaded.as_raw(), h);
    assert_eq!(rt.retain_count(h), 2);
    strong.destroy(&mut rt);
    // The loaded handle keeps the object alive by itself.
    assert_eq!(rt.retain_count(h), 1);
    assert!(second.load(&mut rt).map(|id| id.destroy(&mut rt)).is_some());
    assert_eq!(rt.retain_count(h), 1);
    loaded.destroy(&mut rt);
    assert_eq!(rt.retain_count(h), 0);
    assert!(weak.load(&mut rt).is_none());
    assert!(second.load(&mut rt).is_none());
    assert_eq!(rt.retain_count(h), 0);
}

#[test]
fn a_weak_reference_after_the_only_strong_one_is_dropped() {
    let (mut rt, _, h) = with_object();
    let strong = Id::<Exclusive>::wrap_owned(&rt, h).unwrap();
    let weak = WeakRef::register(&strong);
    strong.destroy(&mut rt);
    assert!(weak.load(&mut rt).is_none());
}

#[test]
fn instance_variables_are_read_and_written() {
    let mut rt = Runtime::new(abi());
    let mut b = ClassBuilder::new(&rt, b"Base".to_vec(), None).unwrap();
    b.add_ivar(b"value".to_vec(), prim(Primitive::Int), 4, 4).unwrap();
    let base = b.finalize(&mut rt).unwrap();
    let h = rt.instantiate(base).unwrap();
    assert_eq!(rt.read_bytes(h, 0, 4), Some(vec![0, 0, 0, 0]));
    assert!(rt.write_bytes(h, 1, &vec![7, 8]));
    assert_eq!(rt.read_bytes(h, 0, 4), Some(vec![0, 7, 8, 0]));
    assert_eq!(rt.read_bytes(h, 2, 2), Some(vec![8, 0]));
    assert_eq!(rt.read_bytes(h, 4, 0), Some(vec![]));
    assert_eq!(rt.read_bytes(h, 2, 3), None);
    assert_eq!(rt.read_bytes(h, 5, 0), None);
    assert_eq!(rt.read_bytes(h, usize::MAX, 2), None);
    assert!(!rt.write_bytes(h, 3, &vec![1, 2]));
    assert!(!rt.write_bytes(RawHandle(0), 0, &vec![1]));
    assert_eq!(rt.read_bytes(h, 0, 4), Some(vec![0, 7, 8, 0]));
    rt.release(h);
    assert_eq!(rt.read_bytes(h, 0, 4), None);
    assert!(!rt.write_bytes(h, 0, &vec![1]));
}

/// The classes `Base` and `Counter` and an instance of `Counter`, whose
/// method `increment` has the entry point 1.
fn counter() -> (Runtime, RawHandle) {
    let mut rt = Runtime::new(abi());
    let base = register(&mut rt, b"Base", None);
    let mut b = ClassBuilder::new(&rt, b"Counter".to_vec(), Some(base)).unwrap();
    b.add_ivar(b"value".to_vec(), prim(Primitive::Int), 4, 4).unwrap();
    b.add_method(b"increment".to_vec(), vec![], prim(Primitive::Int), Imp(1))
        .unwrap();
    b.add_method(
        b"add:".to_vec(),
        vec![prim(Primitive::Int)],
        prim(Primitive::Int),
        Imp(2),
    )
    .unwrap();
    let counter = b.finalize(&mut rt).unwrap();
    let h = rt.instantiate(counter).unwrap();
    (rt, h)
}

/// The host implementation of `increment`: reads the instance variable,
/// adds one, stores it and returns it.
fn increment(rt: &mut Runtime, receiver: Receiver, sel: Sel, args: Vec<Value>) -> Value {
    let receiver = match receiver {
        Receiver::Object(h) => h,
        other => panic!("{:?}", other),
    };
    assert_eq!(rt.selector_name(sel), Some(&b"increment".to_vec()));
    assert!(args.is_empty());
    let class = rt.class_of(receiver).unwrap();
    let offset = rt.ivar(class, &b"value".to_vec()).unwrap().offset as usize;
    let bytes = rt.read_bytes(receiver, offset, 4).unwrap();
    let value = i32::from_le_bytes([bytes[0], bytes[1], bytes[2], bytes[3]]) + 1;
    assert!(rt.write_bytes(receiver, offset, &value.to_le_bytes().to_vec()));
    Value::Signed(value as i64)
}

/// The host implementation of `add:`.
fn add(rt: &mut Runtime, receiver: Receiver, _: Sel, args: Vec<Value>) -> Value {
    let receiver = match receiver {
        Receiver::Object(h) => h,
        other => panic!("{:?}", other),
    };
    let class = rt.class_of(receiver).unwrap();
    let offset = rt.ivar(class, &b"value".to_vec()).unwrap().offset as usize;
    let bytes = rt.read_bytes(receiver, offset, 4).unwrap();
    let by = match args[..] {
        [Value::Signed(by)] => by as i32,
        _ => panic!("{:?}", args),
    };
    let value = i32::from_le_bytes([bytes[0], bytes[1], bytes[2], bytes[3]]) + by;
    assert!(rt.write_bytes(receiver, offset, &value.to_le_bytes().to_vec()));
    Value::Signed(value as i64)
}

/// The raw call of the entry points of `Counter`: each goes through the
/// trampoline of its host implementation.
fn call(
    rt: &mut Runtime,
    receiver: RawHandle,
    sel: Sel,
    raws: Vec<Raw>,
    imp: Imp,
    shape: ReturnShape,
) -> Raw {
    assert_eq!(shape, ReturnShape::Scalar);
    let int = prim(Primitive::Int);
    match imp {
        Imp(1) => {
            trampoline(rt, &vec![], &int, Receiver::Object(receiver), sel, raws, increment)
                .unwrap()
        }
        Imp(2) => {
            let args = vec![prim(Primitive::Int)];
            trampoline(rt, &args, &int, Receiver::Object(receiver), sel, raws, add).unwrap()
        }
        _ => panic!("{:?}", imp),
    }
}

#[test]
fn counter_counts_and_does_not_decrement() {
    let (mut rt, h) = counter();
    let sel = rt.intern(&b"increment".to_vec());
    let ret = prim(Primitive::Int);
    for expected in [1i64, 2, 3] {
        let result = send(&mut rt, Receiver::Object(h), sel, &vec![], &ret, |rt: &mut Runtime, imp, shape| {
            call(rt, h, sel, vec![], imp, shape)
        });
        assert_eq!(result, Ok(Value::Signed(expected)));
    }
    let decrement = rt.intern(&b"decrement".to_vec());
    let mut called = false;
    let result = send(&mut rt, Receiver::Object(h), decrement, &vec![], &ret, |_: &mut Runtime, _, _| {
        called = true;
        Raw::Word(0)
    });
    assert_eq!(result, Err(Error::MethodNotFound));
    assert!(!called);
    assert_eq!(plan(&rt, Receiver::Object(h), decrement, &vec![], &ret), Err(Error::MethodNotFound));
}

#[test]
fn arguments_reach_the_implementation_decoded() {
    let (mut rt, h) = counter();
    let sel = rt.intern(&b"add:".to_vec());
    let int = prim(Primitive::Int);
    let args = vec![prim(Primitive::Int)];
    let result = send(&mut rt, Receiver::Object(h), sel, &args, &int, |rt: &mut Runtime, imp, shape| {
        call(rt, h, sel, vec![Raw::Word(5)], imp, shape)
    });
    assert_eq!(result, Ok(Value::Signed(5)));
    // The upper half of the register does not count for an `int`.
    let result = send(&mut rt, Receiver::Object(h), sel, &args, &int, |rt: &mut Runtime, imp, shape| {
        call(rt, h, sel, vec![Raw::Word(0xffff_ffff_ffff_fff9)], imp, shape)
    });
    assert_eq!(result, Ok(Value::Signed(-2)));
}

#[test]
fn the_trampoline_checks_arguments_and_result() {
    let (mut rt, h) = counter();
    let sel = rt.intern(&b"add:".to_vec());
    let int = prim(Primitive::Int);
    let args = vec![prim(Primitive::Int)];
    let calls = std::cell::Cell::new(0);
    let host = |_: &mut Runtime, _: Receiver, _: Sel, _: Vec<Value>| {
        calls.set(calls.get() + 1);
        Value::Signed(0)
    };
    assert_eq!(
        trampoline(&mut rt, &args, &int, Receiver::Object(h), sel, vec![], &host),
        Err(Error::SignatureMismatch)
    );
    assert_eq!(
        trampoline(&mut rt, &args, &int, Receiver::Object(h), sel, vec![Raw::Bytes(vec![1, 0, 0, 0])], &host),
        Err(Error::SignatureMismatch)
    );
    assert_eq!(
        trampoline(&mut rt, &args, &int, Receiver::Object(h), sel, vec![Raw::Word(1), Raw::Word(2)], &host),
        Err(Error::SignatureMismatch)
    );
    assert_eq!(calls.get(), 0);
    assert_eq!(
        trampoline(&mut rt, &args, &int, Receiver::Object(h), sel, vec![Raw::Word(1)], &host),
        Ok(Raw::Word(0))
    );
    assert_eq!(calls.get(), 1);
    // A result that is no value of the declared shape.
    let too_large = |_: &mut Runtime, _: Receiver, _: Sel, _: Vec<Value>| {
        Value::Signed(1 << 31)
    };
    assert_eq!(
        trampoline(&mut rt, &args, &int, Receiver::Object(h), sel, vec![Raw::Word(1)], too_large),
        Err(Error::SignatureMismatch)
    );
    let wrong_kind = |_: &mut Runtime, _: Receiver, _: Sel, _: Vec<Value>| Value::Unsigned(1);
    assert_eq!(
        trampoline(&mut rt, &args, &int, Receiver::Object(h), sel, vec![Raw::Word(1)], wrong_kind),
        Err(Error::SignatureMismatch)
    );
}

#[test]
fn encode_is_undone_by_decode() {
    let w = PointerWidth::Bits64;
    let cases = vec![
        (prim(Primitive::Char), Value::Signed(-128), 0xffff_ffff_ffff_ff80u64),
        (prim(Primitive::Char), Value::Signed(127), 127),
        (prim(Primitive::Short), Value::Signed(-2), 0xffff_ffff_ffff_fffe),
        (prim(Primitive::Int), Value::Signed(i32::MIN as i64), 0xffff_ffff_8000_0000),
        (prim(Primitive::Long), Value::Signed(7), 7),
        (prim(Primitive::LongLong), Value::Signed(i64::MIN), 1 << 63),
        (prim(Primitive::UChar), Value::Unsigned(255), 255),
        (prim(Primitive::UShort), Value::Unsigned(65535), 65535),
        (prim(Primitive::UInt), Value::Unsigned(u32::MAX as u64), u32::MAX as u64),
        (prim(Primitive::ULongLong), Value::Unsigned(u64::MAX), u64::MAX),
        (prim(Primitive::Bool), Value::Bool(true), 1),
        (prim(Primitive::Bool), Value::Bool(false), 0),
        (prim(Primitive::Float), Value::Single(0x3f80_0000), 0x3f80_0000),
        (prim(Primitive::Double), Value::Double(u64::MAX), u64::MAX),
        (prim(Primitive::Object), Value::Handle(RawHandle(9)), 9),
        (prim(Primitive::Class), Value::Handle(RawHandle(0)), 0),
        (prim(Primitive::Sel), Value::Address(12), 12),
        (Encoding::Pointer(Box::new(prim(Primitive::Void))), Value::Address(64), 64),
        (prim(Primitive::Void), Value::Void, 0),
    ];
    for (e, value, word) in cases {
        let copy = decode(&e, w, Raw::Word(word)).unwrap();
        assert_eq!(copy, value);
        assert_eq!(encode(&e, w, value), Ok(Raw::Word(word)));
    }
    let pair = Encoding::parse(b"{P=ci}").unwrap();
    let bytes = vec![1, 2, 3, 4, 5, 6, 7, 8];
    assert_eq!(
        encode(&pair, w, Value::Aggregate(bytes.clone())),
        Ok(Raw::Bytes(bytes))
    );
}

#[test]
fn encode_refuses_values_of_another_shape() {
    let w = PointerWidth::Bits64;
    let bad = vec![
        (prim(Primitive::Char), Value::Signed(128)),
        (prim(Primitive::Char), Value::Signed(-129)),
        (prim(Primitive::Short), Value::Signed(32768)),
        (prim(Primitive::Int), Value::Signed(i32::MAX as i64 + 1)),
        (prim(Primitive::Long), Value::Signed(i32::MIN as i64 - 1)),
        (prim(Primitive::UChar), Value::Unsigned(256)),
        (prim(Primitive::UShort), Value::Unsigned(65536)),
        (prim(Primitive::UInt), Value::Unsigned(1 << 32)),
        (prim(Primitive::Int), Value::Unsigned(1)),
        (prim(Primitive::UInt), Value::Signed(1)),
        (prim(Primitive::Bool), Value::Unsigned(1)),
        (prim(Primitive::Float), Value::Double(1)),
        (prim(Primitive::Double), Value::Single(1)),
        (prim(Primitive::Object), Value::Address(1)),
        (prim(Primitive::Sel), Value::Handle(RawHandle(1))),
        (prim(Primitive::Void), Value::Signed(0)),
        (prim(Primitive::Int), Value::Void),
        (prim(Primitive::Int), Value::Aggregate(vec![0, 0, 0, 0])),
        (Encoding::Pointer(Box::new(prim(Primitive::Int))), Value::Handle(RawHandle(1))),
        (Encoding::parse(b"{P=ci}").unwrap(), Value::Aggregate(vec![0; 7])),
        (Encoding::parse(b"{P=ci}").unwrap(), Value::Unsigned(0)),
        (
            Encoding::Array(u64::MAX, Box::new(prim(Primitive::Short))),
            Value::Aggregate(vec![]),
        ),
    ];
    for (e, value) in bad {
        assert_eq!(encode(&e, w, value), Err(Error::SignatureMismatch), "{:?}", e);
    }
}

#[test]
fn arguments_are_decoded_in_order() {
    let w = PointerWidth::Bits64;
    let encodings = vec![
        prim(Primitive::Char),
        Encoding::parse(b"{P=ci}").unwrap(),
        prim(Primitive::Object),
    ];
    let raws = vec![Raw::Word(0x1ff), Raw::Bytes(vec![9; 8]), Raw::Word(4)];
    assert_eq!(
        decode_arguments(&encodings, w, raws),
        Ok(vec![Value::Signed(-1), Value::Aggregate(vec![9; 8]), Value::Handle(RawHandle(4))])
    );
    assert_eq!(decode_arguments(&vec![], w, vec![]), Ok(vec![]));
    assert_eq!(
        decode_arguments(&encodings, w, vec![Raw::Word(1)]),
        Err(Error::SignatureMismatch)
    );
    let raws = vec![Raw::Word(1), Raw::Bytes(vec![9; 8]), Raw::Bytes(vec![])];
    assert_eq!(decode_arguments(&encodings, w, raws), Err(Error::SignatureMismatch));
}

#[test]
fn too_few_arguments_are_a_mismatch_before_any_call() {
    let (mut rt, h) = counter();
    let add = rt.intern(&b"add:".to_vec());
    let ret = prim(Primitive::Int);
    let mut called = false;
    let result = send(&mut rt, Receiver::Object(h), add, &vec![], &ret, |_: &mut Runtime, _, _| {
        called = true;
        Raw::Word(0)
    });
    assert_eq!(result, Err(Error::SignatureMismatch));
    assert!(!called);
    assert_eq!(plan(&rt, Receiver::Object(h), add, &vec![], &ret), Err(Error::SignatureMismatch));
    // Too many arguments are one as well.
    let two = vec![prim(Primitive::Int), prim(Primitive::Int)];
    assert_eq!(plan(&rt, Receiver::Object(h), add, &two, &ret), Err(Error::SignatureMismatch));
    // So they are for a selector that no class answers.
    let set = rt.intern(&b"set:to:".to_vec());
    assert_eq!(
        plan(&rt, Receiver::Object(h), set, &vec![prim(Primitive::Int)], &ret),
        Err(Error::SignatureMismatch)
    );
    assert_eq!(plan(&rt, Receiver::Object(h), set, &two, &ret), Err(Error::MethodNotFound));
}

#[test]
fn the_call_site_must_agree_with_the_declared_signature() {
    let (mut rt, h) = counter();
    let add = rt.intern(&b"add:".to_vec());
    let int = prim(Primitive::Int);
    assert_eq!(
        plan(&rt, Receiver::Object(h), add, &vec![prim(Primitive::Int)], &int),
        Ok(Plan::Call { imp: Imp(2), owner: ClassId(1), shape: ReturnShape::Scalar })
    );
    assert_eq!(
        plan(&rt, Receiver::Object(h), add, &vec![prim(Primitive::UInt)], &int),
        Err(Error::SignatureMismatch)
    );
    assert_eq!(
        plan(&rt, Receiver::Object(h), add, &vec![prim(Primitive::Int)], &prim(Primitive::Void)),
        Err(Error::SignatureMismatch)
    );
}

#[test]
fn a_send_to_the_null_receiver_gives_the_zero_value() {
    let (mut rt, _) = counter();
    let add = rt.intern(&b"add:".to_vec());
    let nil = RawHandle(0);
    let mut called = false;
    let result = send(
        &mut rt,
        Receiver::Object(nil),
        add,
        &vec![prim(Primitive::Int)],
        &prim(Primitive::Int),
        |_: &mut Runtime, _, _| {
            called = true;
            Raw::Word(9)
        },
    );
    assert_eq!(result, Ok(Value::Signed(0)));
    assert!(!called);
    // Not even the number of arguments is looked at.
    assert_eq!(plan(&rt, Receiver::Object(nil), add, &vec![], &prim(Primitive::Int)), Ok(Plan::Nil));
    assert_eq!(plan(&rt, Receiver::Object(nil), Sel(99), &vec![], &prim(Primitive::Int)), Ok(Plan::Nil));
}

#[test]
fn a_send_to_a_finalized_object_finds_no_method() {
    let (mut rt, h) = counter();
    let sel = rt.intern(&b"increment".to_vec());
    rt.release(h);
    assert_eq!(
        plan(&rt, Receiver::Object(h), sel, &vec![], &prim(Primitive::Int)),
        Err(Error::MethodNotFound)
    );
    assert_eq!(
        plan(&rt, Receiver::Object(RawHandle(77)), sel, &vec![], &prim(Primitive::Int)),
        Err(Error::MethodNotFound)
    );
    assert_eq!(
        plan(&rt, Receiver::Object(RawHandle(1)), Sel(99), &vec![], &prim(Primitive::Int)),
        Err(Error::MethodNotFound)
    );
}

#[test]
fn the_call_shape_follows_the_result() {
    let mut rt = Runtime::new(Abi {
        pointer_width: PointerWidth::Bits32,
        register_aggregate_limit: 8,
        float_path: true,
        double_path: true,
    });
    let point = Encoding::parse(b"{P=ii}").unwrap();
    let rect = Encoding::parse(b"{R={P=ii}{P=ii}}").unwrap();
    let mut b = ClassBuilder::new(&rt, b"Shape".to_vec(), None).unwrap();
    b.add_method(b"origin".to_vec(), vec![], point.duplicate(), Imp(1)).unwrap();
    b.add_method(b"frame".to_vec(), vec![], rect.duplicate(), Imp(2)).unwrap();
    b.add_method(b"area".to_vec(), vec![], prim(Primitive::Double), Imp(3)).unwrap();
    b.add_method(b"sides".to_vec(), vec![], prim(Primitive::Int), Imp(4)).unwrap();
    let shape = b.finalize(&mut rt).unwrap();
    let h = rt.instantiate(shape).unwrap();
    let cases = vec![
        (&b"origin"[..], point, Imp(1), ReturnShape::SmallAggregate),
        (&b"frame"[..], rect, Imp(2), ReturnShape::LargeAggregate),
        (&b"area"[..], prim(Primitive::Double), Imp(3), ReturnShape::FloatingPoint),
        (&b"sides"[..], prim(Primitive::Int), Imp(4), ReturnShape::Scalar),
    ];
    for (name, ret, imp, expected) in cases {
        let sel = rt.find_selector(&name.to_vec()).unwrap();
        assert_eq!(
            plan(&rt, Receiver::Object(h), sel, &vec![], &ret),
            Ok(Plan::Call { imp, owner: shape, shape: expected })
        );
    }
}

#[test]
fn aliases_of_the_runtime_count_in_dispatch() {
    let mut rt = Runtime::new(abi());
    let cg = Encoding::parse(b"{CGPoint=dd}").unwrap();
    let ns = Encoding::parse(b"{_NSPoint=dd}").unwrap();
    let mut b = ClassBuilder::new(&rt, b"View".to_vec(), None).unwrap();
    b.add_method(b"moveTo:".to_vec(), vec![cg.duplicate()], cg.duplicate(), Imp(5))
        .unwrap();
    let view = b.finalize(&mut rt).unwrap();
    let h = rt.instantiate(view).unwrap();
    let sel = rt.find_selector(&b"moveTo:".to_vec()).unwrap();
    assert_eq!(
        plan(&rt, Receiver::Object(h), sel, &vec![ns.duplicate()], &ns),
        Err(Error::SignatureMismatch)
    );
    rt.define_alias(b"_NSPoint".to_vec(), b"CGPoint".to_vec());
    assert_eq!(
        plan(&rt, Receiver::Object(h), sel, &vec![ns.duplicate()], &ns),
        Ok(Plan::Call { imp: Imp(5), owner: view, shape: ReturnShape::SmallAggregate })
    );
}

#[test]
fn decode_reads_the_low_bits() {
    let w = PointerWidth::Bits64;
    let all = u64::MAX;
    assert_eq!(decode(&prim(Primitive::Char), w, Raw::Word(all)), Ok(Value::Signed(-1)));
    assert_eq!(
        decode(&prim(Primitive::Char), w, Raw::Word(0x1234_5680)),
        Ok(Value::Signed(-128))
    );
    assert_eq!(decode(&prim(Primitive::UChar), w, Raw::Word(0x1ff)), Ok(Value::Unsigned(255)));
    assert_eq!(
        decode(&prim(Primitive::Short), w, Raw::Word(0xf_8000)),
        Ok(Value::Signed(-32768))
    );
    assert_eq!(decode(&prim(Primitive::UShort), w, Raw::Word(all)), Ok(Value::Unsigned(65535)));
    assert_eq!(
        decode(&prim(Primitive::Int), w, Raw::Word(0xdead_beef_ffff_fffe)),
        Ok(Value::Signed(-2))
    );
    assert_eq!(
        decode(&prim(Primitive::Long), w, Raw::Word(0x1_0000_0003)),
        Ok(Value::Signed(3))
    );
    assert_eq!(
        decode(&prim(Primitive::UInt), w, Raw::Word(0x1_0000_0003)),
        Ok(Value::Unsigned(3))
    );
    assert_eq!(decode(&prim(Primitive::LongLong), w, Raw::Word(all)), Ok(Value::Signed(-1)));
    assert_eq!(
        decode(&prim(Primitive::ULongLong), w, Raw::Word(all)),
        Ok(Value::Unsigned(u64::MAX))
    );
    assert_eq!(decode(&prim(Primitive::Bool), w, Raw::Word(0x100)), Ok(Value::Bool(false)));
    assert_eq!(decode(&prim(Primitive::Bool), w, Raw::Word(0x102)), Ok(Value::Bool(true)));
    assert_eq!(
        decode(&prim(Primitive::Float), w, Raw::Word(0x1_3f80_0000)),
        Ok(Value::Single(0x3f80_0000))
    );
    assert_eq!(
        decode(&prim(Primitive::Double), w, Raw::Word(0x3ff0_0000_0000_0000)),
        Ok(Value::Double(0x3ff0_0000_0000_0000))
    );
    assert_eq!(
        decode(&prim(Primitive::Object), w, Raw::Word(3)),
        Ok(Value::Handle(RawHandle(3)))
    );
    assert_eq!(decode(&prim(Primitive::Sel), w, Raw::Word(3)), Ok(Value::Address(3)));
    assert_eq!(
        decode(&Encoding::Pointer(Box::new(prim(Primitive::Int))), w, Raw::Word(64)),
        Ok(Value::Address(64))
    );
    assert_eq!(decode(&prim(Primitive::Void), w, Raw::Word(5)), Ok(Value::Void));
    assert_eq!(decode(&prim(Primitive::Void), w, Raw::Bytes(vec![1])), Ok(Value::Void));
}

#[test]
fn decode_takes_aggregates_of_the_right_size() {
    let w = PointerWidth::Bits64;
    let pair = Encoding::parse(b"{P=ci}").unwrap();
    let bytes = vec![1, 2, 3, 4, 5, 6, 7, 8];
    assert_eq!(
        decode(&pair, w, Raw::Bytes(bytes.clone())),
        Ok(Value::Aggregate(bytes))
    );
    assert_eq!(
        decode(&pair, w, Raw::Bytes(vec![1, 2, 3, 4, 5])),
        Err(Error::SignatureMismatch)
    );
    assert_eq!(decode(&pair, w, Raw::Word(1)), Err(Error::SignatureMismatch));
    assert_eq!(
        decode(&prim(Primitive::Int), w, Raw::Bytes(vec![1, 0, 0, 0])),
        Err(Error::SignatureMismatch)
    );
    let huge = Encoding::Array(u64::MAX, Box::new(prim(Primitive::Short)));
    assert_eq!(decode(&huge, w, Raw::Bytes(vec![])), Err(Error::SignatureMismatch));
}

#[test]
fn zero_values() {
    let w = PointerWidth::Bits64;
    assert_eq!(zero_value(&prim(Primitive::Void), w), Value::Void);
    assert_eq!(zero_value(&prim(Primitive::Int), w), Value::Signed(0));
    assert_eq!(zero_value(&prim(Primitive::UChar), w), Value::Unsigned(0));
    assert_eq!(zero_value(&prim(Primitive::Bool), w), Value::Bool(false));
    assert_eq!(zero_value(&prim(Primitive::Float), w), Value::Single(0));
    assert_eq!(zero_value(&prim(Primitive::Double), w), Value::Double(0));
    assert_eq!(zero_value(&prim(Primitive::Object), w), Value::Handle(RawHandle(0)));
    assert_eq!(zero_value(&prim(Primitive::String), w), Value::Address(0));
    assert_eq!(
        zero_value(&Encoding::Pointer(Box::new(prim(Primitive::Int))), w),
        Value::Address(0)
    );
    assert_eq!(
        zero_value(&Encoding::parse(b"{P=ci}").unwrap(), w),
        Value::Aggregate(vec![0; 8])
    );
    let huge = Encoding::Array(u64::MAX, Box::new(prim(Primitive::Short)));
    assert_eq!(zero_value(&huge, w), Value::Aggregate(vec![]));
}

#[test]
fn a_result_of_the_wrong_form_is_a_mismatch() {
    let (mut rt, h) = counter();
    let sel = rt.intern(&b"increment".to_vec());
    let result = send(
        &mut rt,
        Receiver::Object(h),
        sel,
        &vec![],
        &prim(Primitive::Int),
        |_: &mut Runtime, _, _| Raw::Bytes(vec![1, 0, 0, 0]),
    );
    assert_eq!(result, Err(Error::SignatureMismatch));
}

#[test]
fn a_result_is_wrapped_by_the_family_of_its_selector() {
    let (mut rt, _, h) = with_object();
    // The result of `new` comes with a reference that the caller owns.
    let owned = Id::<Shared>::wrap_result(&mut rt, family(&b"new".to_vec()), h).unwrap();
    assert_eq!(rt.retain_count(h), 1);
    // The result of any other message is retained.
    let kept = Id::<Shared>::wrap_result(&mut rt, family(&b"string".to_vec()), h).unwrap();
    assert_eq!(rt.retain_count(h), 2);
    assert!(owned.ptr_eq(&kept));
    owned.destroy(&mut rt);
    kept.destroy(&mut rt);
    assert_eq!(rt.retain_count(h), 0);
    assert!(Id::<Shared>::wrap_result(&mut rt, Family::Owned, RawHandle(0)).is_none());
    assert!(Id::<Shared>::wrap_result(&mut rt, Family::Borrowed, RawHandle(0)).is_none());
}

#[test]
fn registering_a_class_leaves_the_others_as_they_were() {
    let mut rt = Runtime::new(abi());
    let mut b = ClassBuilder::new(&rt, b"Base".to_vec(), None).unwrap();
    b.add_method(b"value".to_vec(), vec![], prim(Primitive::Int), Imp(1)).unwrap();
    let base = b.finalize(&mut rt).unwrap();
    let h = rt.instantiate(base).unwrap();
    let value = rt.find_selector(&b"value".to_vec()).unwrap();
    let mut b = ClassBuilder::new(&rt, b"Other".to_vec(), None).unwrap();
    b.add_method(b"value".to_vec(), vec![], prim(Primitive::Double), Imp(2)).unwrap();
    b.add_method(b"more".to_vec(), vec![], prim(Primitive::Double), Imp(3)).unwrap();
    let other = b.finalize(&mut rt).unwrap();
    // The selector was interned once.
    assert_eq!(rt.find_selector(&b"value".to_vec()), Some(value));
    assert_eq!(rt.lookup(base, value).unwrap().1.imp, Imp(1));
    assert_eq!(rt.lookup(other, value).unwrap().1.imp, Imp(2));
    assert_eq!(rt.class_of(h), Some(base));
    assert_eq!(rt.retain_count(h), 1);
    assert_eq!(rt.class(base).unwrap().name, b"Base".to_vec());
    assert_eq!(rt.class(other).unwrap().methods.len(), 2);
    assert!(rt.class(ClassId(2)).is_none());
}

#[test]
fn a_class_answers_with_its_method_table() {
    let mut rt = Runtime::new(abi());
    let mut b = ClassBuilder::new(&rt, b"Base".to_vec(), None).unwrap();
    b.add_method(b"version".to_vec(), vec![], prim(Primitive::Int), Imp(7)).unwrap();
    let base = b.finalize(&mut rt).unwrap();
    let counter = register(&mut rt, b"Counter", Some(base));
    let version = rt.find_selector(&b"version".to_vec()).unwrap();
    let other = rt.intern(&b"other".to_vec());
    let int = prim(Primitive::Int);
    let expected = Ok(Plan::Call { imp: Imp(7), owner: base, shape: ReturnShape::Scalar });
    assert_eq!(plan(&rt, Receiver::Class(base), version, &vec![], &int), expected);
    assert_eq!(plan(&rt, Receiver::Class(counter), version, &vec![], &int), expected);
    assert_eq!(
        plan(&rt, Receiver::Class(counter), other, &vec![], &int),
        Err(Error::MethodNotFound)
    );
    assert_eq!(
        plan(&rt, Receiver::Class(ClassId(9)), version, &vec![], &int),
        Err(Error::MethodNotFound)
    );
    assert_eq!(
        plan(&rt, Receiver::Class(base), version, &vec![prim(Primitive::Int)], &int),
        Err(Error::SignatureMismatch)
    );
    let result = send(&mut rt, Receiver::Class(counter), version, &vec![], &int, |rt, imp, _| {
        let host = |_: &mut Runtime, receiver: Receiver, _: Sel, _: Vec<Value>| {
            assert_eq!(receiver, Receiver::Class(ClassId(1)));
            Value::Signed(3)
        };
        assert_eq!(imp, Imp(7));
        let int = prim(Primitive::Int);
        trampoline(rt, &vec![], &int, Receiver::Class(ClassId(1)), Sel(0), vec![], host).unwrap()
    });
    assert_eq!(result, Ok(Value::Signed(3)));
}
