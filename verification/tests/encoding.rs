use objc_core::class::ClassId;
use objc_core::compat::AliasTable;
use objc_core::encode::Encode;
use objc_core::heap::RawHandle;
use objc_core::selector::Sel;
use objc_core::encoding::{canonicalize, duplicate_all, Encoding, Primitive};
use objc_core::image::NSImageResizingMode;
use objc_core::layout::{classify, layout, round_up_exec, Abi, Layout, PointerWidth, ReturnShape};

fn prim(p: Primitive) -> Encoding {
    Encoding::Primitive(p)
}

fn point() -> Encoding {
    Encoding::Struct(
        b"CGPoint".to_vec(),
        vec![prim(Primitive::Double), prim(Primitive::Double)],
    )
}

fn x86_64() -> Abi {
    Abi {
        pointer_width: PointerWidth::Bits64,
        register_aggregate_limit: 16,
        float_path: false,
        double_path: false,
    }
}

fn i386() -> Abi {
    Abi {
        pointer_width: PointerWidth::Bits32,
        register_aggregate_limit: 8,
        float_path: true,
        double_path: true,
    }
}

#[test]
fn parse_every_leaf_kind() {
    let table: Vec<(&[u8], Primitive)> = vec![
        (b"c", Primitive::Char),
        (b"s", Primitive::Short),
        (b"i", Primitive::Int),
        (b"l", Primitive::Long),
        (b"q", Primitive::LongLong),
        (b"C", Primitive::UChar),
        (b"S", Primitive::UShort),
        (b"I", Primitive::UInt),
        (b"L", Primitive::ULong),
        (b"Q", Primitive::ULongLong),
        (b"f", Primitive::Float),
        (b"d", Primitive::Double),
        (b"B", Primitive::Bool),
        (b"v", Primitive::Void),
        (b"*", Primitive::String),
        (b"@", Primitive::Object),
        (b"@?", Primitive::Block),
        (b"#", Primitive::Class),
        (b":", Primitive::Sel),
        (b"?", Primitive::Unknown),
    ];
    for (text, kind) in table {
        assert_eq!(Encoding::parse(text), Some(prim(kind)));
        assert_eq!(prim(kind).serialize(), text.to_vec());
    }
}

#[test]
fn parse_pointer_array_struct_union() {
    assert_eq!(
        Encoding::parse(b"^i"),
        Some(Encoding::Pointer(Box::new(prim(Primitive::Int))))
    );
    assert_eq!(
        Encoding::parse(b"[12f]"),
        Some(Encoding::Array(12, Box::new(prim(Primitive::Float))))
    );
    assert_eq!(Encoding::parse(b"{CGPoint=dd}"), Some(point()));
    assert_eq!(
        Encoding::parse(b"(u=iq)"),
        Some(Encoding::Union(
            b"u".to_vec(),
            vec![prim(Primitive::Int), prim(Primitive::LongLong)]
        ))
    );
    assert_eq!(
        Encoding::parse(b"{?=}"),
        Some(Encoding::Struct(b"?".to_vec(), vec![]))
    );
    assert_eq!(
        Encoding::parse(b"{=i}"),
        Some(Encoding::Struct(vec![], vec![prim(Primitive::Int)]))
    );
}

#[test]
fn parse_nested() {
    let rect = Encoding::Struct(
        b"CGRect".to_vec(),
        vec![
            point(),
            Encoding::Struct(
                b"CGSize".to_vec(),
                vec![prim(Primitive::Double), prim(Primitive::Double)],
            ),
        ],
    );
    let text = b"{CGRect={CGPoint=dd}{CGSize=dd}}";
    assert_eq!(Encoding::parse(text), Some(rect));
    let deep = b"^^[3{n=^@[2(m=c@?)]}]";
    let parsed = Encoding::parse(deep).unwrap();
    assert_eq!(parsed.serialize(), deep.to_vec());
}

#[test]
fn parse_rejects_malformed_text() {
    let bad: Vec<&[u8]> = vec![
        b"",
        b"x",
        b"ii",
        b"^",
        b"[i]",
        b"[3i",
        b"[3]",
        b"[]",
        b"{CGPoint=dd",
        b"{CGPoint dd}",
        b"{CGPoint}",
        b"{a-b=i}",
        b"(u=i}",
        b"{s=i)",
        b"i ",
        b" i",
        b"[-1i]",
        b"]",
        b"}",
    ];
    for text in bad {
        assert_eq!(Encoding::parse(text), None, "{:?}", text);
    }
}

#[test]
fn array_length_must_fit_in_64_bits() {
    assert_eq!(
        Encoding::parse(b"[18446744073709551615c]"),
        Some(Encoding::Array(u64::MAX, Box::new(prim(Primitive::Char))))
    );
    assert_eq!(Encoding::parse(b"[18446744073709551616c]"), None);
    assert_eq!(Encoding::parse(b"[99999999999999999999999c]"), None);
    assert_eq!(
        Encoding::parse(b"[00000000000000000000000000007c]"),
        Some(Encoding::Array(7, Box::new(prim(Primitive::Char))))
    );
}

#[test]
fn serialize_writes_lengths_without_leading_zeros() {
    assert_eq!(
        Encoding::Array(0, Box::new(prim(Primitive::Int))).serialize(),
        b"[0i]".to_vec()
    );
    assert_eq!(
        Encoding::Array(1030, Box::new(prim(Primitive::Int))).serialize(),
        b"[1030i]".to_vec()
    );
    assert_eq!(
        Encoding::Array(u64::MAX, Box::new(prim(Primitive::Int))).serialize(),
        b"[18446744073709551615i]".to_vec()
    );
}

#[test]
fn canonicalize_strips_leading_zeros_of_lengths() {
    assert_eq!(canonicalize(b"[007i]"), b"[7i]".to_vec());
    assert_eq!(canonicalize(b"[000i]"), b"[0i]".to_vec());
    assert_eq!(canonicalize(b"[0i]"), b"[0i]".to_vec());
    assert_eq!(canonicalize(b"[10i]"), b"[10i]".to_vec());
    assert_eq!(canonicalize(b"{a0=[02[003c]]}"), b"{a0=[2[3c]]}".to_vec());
    assert_eq!(canonicalize(b"{s00=i}"), b"{s00=i}".to_vec());
    assert_eq!(canonicalize(b""), Vec::<u8>::new());
}

#[test]
fn serialize_after_parse_is_the_canonical_text() {
    let texts: Vec<&[u8]> = vec![
        b"i",
        b"@?",
        b"^v",
        b"[007i]",
        b"[000c]",
        b"{CGRect={CGPoint=dd}{CGSize=dd}}",
        b"{a0=[02[003c]]}",
        b"(u=^{s=[0010@]}#:?*)",
        b"^^[3{n=^@[2(m=c@?)]}]",
    ];
    for text in texts {
        let parsed = Encoding::parse(text).unwrap();
        assert_eq!(parsed.serialize(), canonicalize(text), "{:?}", text);
        let again = Encoding::parse(&parsed.serialize()).unwrap();
        assert_eq!(again.serialize(), parsed.serialize());
    }
}

#[test]
fn duplicate_copies_the_encoding() {
    let e = Encoding::parse(b"{a=[2^{b=i}]@?}").unwrap();
    assert_eq!(e.duplicate(), e);
    let list = vec![point(), prim(Primitive::Int)];
    assert_eq!(duplicate_all(&list), list);
}

#[test]
fn equal_encodings_match() {
    let aliases = AliasTable::new();
    let declared = vec![point(), prim(Primitive::Object), prim(Primitive::Sel)];
    let actual = vec![point(), prim(Primitive::Object), prim(Primitive::Sel)];
    assert!(aliases.matches(&declared, &actual));
    assert!(aliases.matches(&vec![], &vec![]));
}

#[test]
fn different_arity_does_not_match() {
    let aliases = AliasTable::new();
    let declared = vec![prim(Primitive::Int), prim(Primitive::Int)];
    let actual = vec![prim(Primitive::Int)];
    assert!(!aliases.matches(&declared, &actual));
    assert!(!aliases.matches(&actual, &declared));
    assert!(!aliases.matches(&declared, &vec![]));
}

#[test]
fn different_component_does_not_match() {
    let aliases = AliasTable::new();
    let declared = vec![prim(Primitive::Int), prim(Primitive::Int)];
    let actual = vec![prim(Primitive::Int), prim(Primitive::UInt)];
    assert!(!aliases.matches(&declared, &actual));
    assert!(!aliases.compatible(
        &Encoding::Array(3, Box::new(prim(Primitive::Int))),
        &Encoding::Array(4, Box::new(prim(Primitive::Int)))
    ));
    assert!(!aliases.compatible(
        &Encoding::Pointer(Box::new(prim(Primitive::Int))),
        &Encoding::Pointer(Box::new(prim(Primitive::Char)))
    ));
    assert!(!aliases.compatible(
        &Encoding::Struct(b"s".to_vec(), vec![prim(Primitive::Int)]),
        &Encoding::Union(b"s".to_vec(), vec![prim(Primitive::Int)])
    ));
    assert!(!aliases.compatible(
        &Encoding::Struct(b"s".to_vec(), vec![prim(Primitive::Int)]),
        &Encoding::Struct(b"s".to_vec(), vec![prim(Primitive::Int), prim(Primitive::Int)])
    ));
    assert!(!aliases.compatible(&prim(Primitive::Object), &prim(Primitive::Block)));
}

#[test]
fn aliases_are_resolved_before_comparing() {
    let ns_point = Encoding::Struct(
        b"_NSPoint".to_vec(),
        vec![prim(Primitive::Double), prim(Primitive::Double)],
    );
    let mut aliases = AliasTable::new();
    assert!(!aliases.compatible(&ns_point, &point()));
    aliases.define(b"_NSPoint".to_vec(), b"CGPoint".to_vec());
    assert!(aliases.compatible(&ns_point, &point()));
    assert!(aliases.compatible(&point(), &ns_point));
    assert_eq!(aliases.resolve_name(&b"_NSPoint".to_vec()), b"CGPoint".to_vec());
    assert_eq!(aliases.resolve_name(&b"CGPoint".to_vec()), b"CGPoint".to_vec());
    // The names are resolved at every depth.
    let nested_a = Encoding::Pointer(Box::new(Encoding::Array(2, Box::new(ns_point))));
    let nested_b = Encoding::Pointer(Box::new(Encoding::Array(2, Box::new(point()))));
    assert!(aliases.compatible(&nested_a, &nested_b));
    // The fields still have to agree.
    let other = Encoding::Struct(b"_NSPoint".to_vec(), vec![prim(Primitive::Float)]);
    assert!(!aliases.compatible(&other, &point()));
    // A later definition replaces an earlier one.
    aliases.define(b"_NSPoint".to_vec(), b"Other".to_vec());
    assert_eq!(aliases.resolve_name(&b"_NSPoint".to_vec()), b"Other".to_vec());
    assert!(!aliases.compatible(&nested_a, &nested_b));
}

#[test]
fn two_aliases_of_one_name_are_compatible() {
    let a = Encoding::Union(b"A".to_vec(), vec![prim(Primitive::Int)]);
    let b = Encoding::Union(b"B".to_vec(), vec![prim(Primitive::Int)]);
    let mut aliases = AliasTable::new();
    aliases.define(b"A".to_vec(), b"C".to_vec());
    assert!(!aliases.compatible(&a, &b));
    aliases.define(b"B".to_vec(), b"C".to_vec());
    assert!(aliases.compatible(&a, &b));
}

#[test]
fn round_up_to_alignment() {
    assert_eq!(round_up_exec(0, 8), Some(0));
    assert_eq!(round_up_exec(1, 8), Some(8));
    assert_eq!(round_up_exec(8, 8), Some(8));
    assert_eq!(round_up_exec(9, 4), Some(12));
    assert_eq!(round_up_exec(13, 1), Some(13));
    assert_eq!(round_up_exec(u64::MAX, 1), Some(u64::MAX));
    assert_eq!(round_up_exec(u64::MAX, 2), None);
    assert_eq!(round_up_exec(u64::MAX - 1, 2), Some(u64::MAX - 1));
    assert_eq!(round_up_exec(5, 0), Some(5));
}

#[test]
fn layout_of_scalars() {
    let w64 = PointerWidth::Bits64;
    let w32 = PointerWidth::Bits32;
    assert_eq!(layout(&prim(Primitive::Char), w64), Some(Layout { size: 1, align: 1 }));
    assert_eq!(layout(&prim(Primitive::Short), w64), Some(Layout { size: 2, align: 2 }));
    assert_eq!(layout(&prim(Primitive::Int), w64), Some(Layout { size: 4, align: 4 }));
    assert_eq!(layout(&prim(Primitive::Long), w64), Some(Layout { size: 4, align: 4 }));
    assert_eq!(layout(&prim(Primitive::LongLong), w32), Some(Layout { size: 8, align: 8 }));
    assert_eq!(layout(&prim(Primitive::Double), w64), Some(Layout { size: 8, align: 8 }));
    assert_eq!(layout(&prim(Primitive::Void), w64), Some(Layout { size: 0, align: 1 }));
    assert_eq!(layout(&prim(Primitive::Object), w64), Some(Layout { size: 8, align: 8 }));
    assert_eq!(layout(&prim(Primitive::Object), w32), Some(Layout { size: 4, align: 4 }));
    assert_eq!(
        layout(&Encoding::Pointer(Box::new(point())), w32),
        Some(Layout { size: 4, align: 4 })
    );
}

#[test]
fn layout_of_aggregates() {
    let w64 = PointerWidth::Bits64;
    assert_eq!(layout(&point(), w64), Some(Layout { size: 16, align: 8 }));
    // A char, three bytes of padding, an int.
    let ci = Encoding::parse(b"{s=ci}").unwrap();
    assert_eq!(layout(&ci, w64), Some(Layout { size: 8, align: 4 }));
    // An int, a char, three bytes of padding at the end.
    let ic = Encoding::parse(b"{s=ic}").unwrap();
    assert_eq!(layout(&ic, w64), Some(Layout { size: 8, align: 4 }));
    // char, pad 7, double, short, pad 6.
    let cds = Encoding::parse(b"{s=cds}").unwrap();
    assert_eq!(layout(&cds, w64), Some(Layout { size: 24, align: 8 }));
    let empty = Encoding::parse(b"{s=}").unwrap();
    assert_eq!(layout(&empty, w64), Some(Layout { size: 0, align: 1 }));
    let union = Encoding::parse(b"(u=c[5c]i)").unwrap();
    assert_eq!(layout(&union, w64), Some(Layout { size: 8, align: 4 }));
    let array = Encoding::parse(b"[3{s=ci}]").unwrap();
    assert_eq!(layout(&array, w64), Some(Layout { size: 24, align: 4 }));
    let with_pointer = Encoding::parse(b"{s=c@}").unwrap();
    assert_eq!(layout(&with_pointer, w64), Some(Layout { size: 16, align: 8 }));
    assert_eq!(
        layout(&with_pointer, PointerWidth::Bits32),
        Some(Layout { size: 8, align: 4 })
    );
}

#[test]
fn layout_that_does_not_fit() {
    let w64 = PointerWidth::Bits64;
    let huge = Encoding::Array(u64::MAX, Box::new(prim(Primitive::Short)));
    assert_eq!(layout(&huge, w64), None);
    let fits = Encoding::Array(u64::MAX, Box::new(prim(Primitive::Char)));
    assert_eq!(layout(&fits, w64), Some(Layout { size: u64::MAX, align: 1 }));
    let two = Encoding::Struct(
        b"s".to_vec(),
        vec![fits.duplicate(), prim(Primitive::Char)],
    );
    assert_eq!(layout(&two, w64), None);
    let padded = Encoding::Struct(b"s".to_vec(), vec![fits, prim(Primitive::Void)]);
    assert_eq!(layout(&padded, w64), Some(Layout { size: u64::MAX, align: 1 }));
    // The size of an element counts even where there is none.
    let none_of_huge = Encoding::Array(0, Box::new(huge));
    assert_eq!(layout(&none_of_huge, w64), None);
}

#[test]
fn classify_by_the_table() {
    assert_eq!(classify(&prim(Primitive::Int), &x86_64()), ReturnShape::Scalar);
    assert_eq!(classify(&prim(Primitive::Void), &x86_64()), ReturnShape::Scalar);
    assert_eq!(classify(&prim(Primitive::Object), &x86_64()), ReturnShape::Scalar);
    assert_eq!(
        classify(&Encoding::Pointer(Box::new(point())), &x86_64()),
        ReturnShape::Scalar
    );
    assert_eq!(classify(&prim(Primitive::Double), &x86_64()), ReturnShape::Scalar);
    assert_eq!(classify(&prim(Primitive::Double), &i386()), ReturnShape::FloatingPoint);
    assert_eq!(classify(&prim(Primitive::Float), &i386()), ReturnShape::FloatingPoint);
    let only_double = Abi { float_path: false, ..i386() };
    assert_eq!(classify(&prim(Primitive::Float), &only_double), ReturnShape::Scalar);
    assert_eq!(classify(&point(), &x86_64()), ReturnShape::SmallAggregate);
    assert_eq!(classify(&point(), &i386()), ReturnShape::LargeAggregate);
    let rect = Encoding::parse(b"{CGRect={CGPoint=dd}{CGSize=dd}}").unwrap();
    assert_eq!(classify(&rect, &x86_64()), ReturnShape::LargeAggregate);
    let huge = Encoding::Array(u64::MAX, Box::new(prim(Primitive::Short)));
    assert_eq!(classify(&huge, &x86_64()), ReturnShape::LargeAggregate);
    let all_in_registers = Abi { register_aggregate_limit: u64::MAX, ..x86_64() };
    assert_eq!(classify(&rect, &all_in_registers), ReturnShape::SmallAggregate);
}

#[test]
fn names_are_checked_against_the_grammar() {
    assert!(point().is_well_formed());
    assert!(prim(Primitive::Int).is_well_formed());
    assert!(Encoding::Struct(vec![], vec![]).is_well_formed());
    assert!(Encoding::Struct(b"a_B9?".to_vec(), vec![]).is_well_formed());
    let bad = Encoding::Struct(b"a=b".to_vec(), vec![prim(Primitive::Int)]);
    assert!(!bad.is_well_formed());
    assert!(!Encoding::Pointer(Box::new(bad.duplicate())).is_well_formed());
    assert!(!Encoding::Array(2, Box::new(bad.duplicate())).is_well_formed());
    assert!(!Encoding::Union(b"u".to_vec(), vec![point(), bad.duplicate()]).is_well_formed());
    assert!(!Encoding::Struct(b"a b".to_vec(), vec![]).is_well_formed());
    assert!(!Encoding::Struct(b"a[".to_vec(), vec![]).is_well_formed());
    // The text of an encoding with such a name is not read as it was meant.
    assert_ne!(Encoding::parse(&bad.serialize()), Some(bad));
}

#[test]
fn written_text_is_read_back() {
    let values = vec![
        point(),
        Encoding::Pointer(Box::new(prim(Primitive::Object))),
        Encoding::Array(0, Box::new(prim(Primitive::Block))),
        Encoding::Struct(
            b"s".to_vec(),
            vec![
                prim(Primitive::Unknown),
                prim(Primitive::Object),
                prim(Primitive::Block),
                prim(Primitive::Unknown),
                Encoding::Pointer(Box::new(prim(Primitive::Object))),
                Encoding::Union(b"".to_vec(), vec![]),
            ],
        ),
    ];
    for value in values {
        assert_eq!(Encoding::parse(&value.serialize()), Some(value));
    }
}

#[test]
fn an_object_before_an_unknown_is_read_as_a_block() {
    let written = Encoding::Struct(
        b"s".to_vec(),
        vec![prim(Primitive::Object), prim(Primitive::Unknown)],
    );
    let text = written.serialize();
    assert_eq!(text, b"{s=@?}".to_vec());
    let read = Encoding::parse(&text).unwrap();
    assert_eq!(read, Encoding::Struct(b"s".to_vec(), vec![prim(Primitive::Block)]));
    // The text is the same all the same.
    assert_eq!(read.serialize(), text);
    let nested = Encoding::Struct(
        b"s".to_vec(),
        vec![
            Encoding::Pointer(Box::new(prim(Primitive::Object))),
            prim(Primitive::Unknown),
            prim(Primitive::Int),
        ],
    );
    let read = Encoding::parse(&nested.serialize()).unwrap();
    assert_eq!(
        read,
        Encoding::Struct(
            b"s".to_vec(),
            vec![Encoding::Pointer(Box::new(prim(Primitive::Block))), prim(Primitive::Int)]
        )
    );
    assert_eq!(read.serialize(), nested.serialize());
}

#[test]
fn the_tables_of_the_known_targets() {
    assert_eq!(Abi::x86_64(), x86_64());
    assert_eq!(Abi::x86(), i386());
    assert_eq!(
        Abi::aarch64(),
        Abi {
            pointer_width: PointerWidth::Bits64,
            register_aggregate_limit: 16,
            float_path: false,
            double_path: false
        }
    );
    assert_eq!(
        Abi::arm(),
        Abi {
            pointer_width: PointerWidth::Bits32,
            register_aggregate_limit: 4,
            float_path: false,
            double_path: false
        }
    );
}

#[test]
fn the_encoding_of_a_resizing_mode() {
    assert_eq!(
        NSImageResizingMode::encoding(PointerWidth::Bits64),
        prim(Primitive::LongLong)
    );
    assert_eq!(NSImageResizingMode::encoding(PointerWidth::Bits32), prim(Primitive::Int));
    assert_eq!(
        NSImageResizingMode::encoding_ref(PointerWidth::Bits64).serialize(),
        b"^q".to_vec()
    );
    assert_eq!(
        NSImageResizingMode::encoding_ref(PointerWidth::Bits32).serialize(),
        b"^i".to_vec()
    );
}

#[test]
fn host_types_have_encodings() {
    let w64 = PointerWidth::Bits64;
    let w32 = PointerWidth::Bits32;
    assert_eq!(<i8 as Encode>::encoding(w64).serialize(), b"c".to_vec());
    assert_eq!(<i16 as Encode>::encoding(w64).serialize(), b"s".to_vec());
    assert_eq!(<i32 as Encode>::encoding(w64).serialize(), b"i".to_vec());
    assert_eq!(<i64 as Encode>::encoding(w32).serialize(), b"q".to_vec());
    assert_eq!(<isize as Encode>::encoding(w64).serialize(), b"q".to_vec());
    assert_eq!(<isize as Encode>::encoding(w32).serialize(), b"i".to_vec());
    assert_eq!(<u8 as Encode>::encoding(w64).serialize(), b"C".to_vec());
    assert_eq!(<u16 as Encode>::encoding(w64).serialize(), b"S".to_vec());
    assert_eq!(<u32 as Encode>::encoding(w64).serialize(), b"I".to_vec());
    assert_eq!(<u64 as Encode>::encoding(w32).serialize(), b"Q".to_vec());
    assert_eq!(<usize as Encode>::encoding(w64).serialize(), b"Q".to_vec());
    assert_eq!(<usize as Encode>::encoding(w32).serialize(), b"I".to_vec());
    assert_eq!(<bool as Encode>::encoding(w64).serialize(), b"B".to_vec());
    assert_eq!(<() as Encode>::encoding(w64).serialize(), b"v".to_vec());
    assert_eq!(<RawHandle as Encode>::encoding(w64).serialize(), b"@".to_vec());
    assert_eq!(<Sel as Encode>::encoding(w64).serialize(), b":".to_vec());
    assert_eq!(<ClassId as Encode>::encoding(w64).serialize(), b"#".to_vec());
    assert_eq!(<NSImageResizingMode as Encode>::encoding(w32).serialize(), b"i".to_vec());
    assert_eq!(<[u8; 16] as Encode>::encoding(w64).serialize(), b"[16C]".to_vec());
    assert_eq!(<[[i32; 2]; 0] as Encode>::encoding(w64).serialize(), b"[0[2i]]".to_vec());
    assert_eq!(<Box<isize> as Encode>::encoding(w32).serialize(), b"^i".to_vec());
    assert_eq!(<Box<[RawHandle; 3]> as Encode>::encoding(w64).serialize(), b"^[3@]".to_vec());
}
