use objc_core::availability::{Availability, PlatformAvailability, Version};
use objc_core::global_analysis::{
    disambiguate_names, global_analysis, merge_typedef_enums, update_file,
};
use objc_core::id::ItemIdentifier;
use objc_core::image::{target_abi_uses_ios_values, Arch, NSImageResizingMode, Os, Target};
use objc_core::method::{Argument, MemoryManagement, Method, MethodData};
use objc_core::property::{
    EntityKind, ObjCAttributes, ObjCQualifiers, PartialProperty, PropertyEntity,
};
use objc_core::rust_type::{Inner, Nullability, Ty, TyKind};
use objc_core::stmt::{EnumVariant, File, Library, NamedFile, Stmt, UnexposedAttr};

fn id(name: &str) -> ItemIdentifier {
    ItemIdentifier {
        name: name.to_string(),
        library: "Foundation".to_string(),
        file_name: Some("NSObject".to_string()),
    }
}

fn method(selector: &str, fn_name: &str, is_class: bool) -> Method {
    Method {
        selector: selector.to_string(),
        fn_name: fn_name.to_string(),
        availability: Availability::parse(vec![]),
        is_class,
        is_optional_protocol: false,
        memory_management: MemoryManagement::Normal,
        designated_initializer: false,
        arguments: vec![],
        result_type: Ty::void_result(),
        safe: true,
        mutating: false,
    }
}

fn methods_of(cls: &str, methods: Vec<Method>) -> Stmt {
    Stmt::ExternMethods { cls: id(cls), methods }
}

fn names(stmt: &Stmt) -> Vec<String> {
    match stmt {
        Stmt::ExternMethods { methods, .. }
        | Stmt::ExternCategory { methods, .. }
        | Stmt::ProtocolDecl { methods, .. } => {
            methods.iter().map(|m| m.fn_name.clone()).collect()
        }
        _ => vec![],
    }
}

fn typedef(name: &str, kind: Option<UnexposedAttr>) -> Stmt {
    Stmt::AliasDecl {
        id: id(name),
        availability: Availability::parse(vec![]),
        ty: Ty { ty: Inner::C { name: "long".to_string() }, kind: TyKind::Typedef },
        kind,
    }
}

fn enumeration(name: &str, of: &str) -> Stmt {
    Stmt::EnumDecl {
        id: id(name),
        availability: Availability::parse(vec![]),
        ty: Ty { ty: Inner::TypeDef { name: of.to_string() }, kind: TyKind::Enum },
        kind: Some(UnexposedAttr::Options),
        variants: vec![EnumVariant { name: "A".to_string(), value: 1 }],
        sendable: Some(true),
    }
}

#[test]
fn methods_that_do_not_clash_keep_their_names() {
    let mut file = File {
        stmts: vec![
            methods_of("A", vec![method("foo", "foo", false), method("bar:", "bar", false)]),
            methods_of("B", vec![method("foo", "foo", true)]),
        ],
    };
    update_file(&mut file);
    assert_eq!(names(&file.stmts[0]), vec!["foo", "bar"]);
    assert_eq!(names(&file.stmts[1]), vec!["foo"]);
}

#[test]
fn a_class_method_that_clashes_gets_a_suffix() {
    let mut file = File {
        stmts: vec![methods_of(
            "A",
            vec![method("foo", "foo", false), method("foo", "foo", true)],
        )],
    };
    update_file(&mut file);
    assert_eq!(names(&file.stmts[0]), vec!["foo", "foo_class"]);

    let mut file = File {
        stmts: vec![methods_of(
            "A",
            vec![method("foo", "foo", true), method("foo", "foo", false)],
        )],
    };
    update_file(&mut file);
    assert_eq!(names(&file.stmts[0]), vec!["foo_class", "foo"]);
}

#[test]
fn methods_of_one_kind_that_clash_are_named_after_their_selectors() {
    let mut file = File {
        stmts: vec![methods_of(
            "A",
            vec![
                method("myMethod:", "myMethod", false),
                method("other", "other", false),
                method("myMethod", "myMethod", false),
                method("a:b:c:", "other", false),
            ],
        )],
    };
    update_file(&mut file);
    assert_eq!(
        names(&file.stmts[0]),
        vec!["myMethod_", "other", "myMethod", "a_b_c_"]
    );
    match &file.stmts[0] {
        Stmt::ExternMethods { cls, methods } => {
            assert_eq!(*cls, id("A"));
            assert_eq!(methods[0].selector, "myMethod:");
            assert_eq!(methods[3].selector, "a:b:c:");
            assert!(methods[3].safe);
        }
        _ => unreachable!(),
    }
}

#[test]
fn clashes_are_found_across_statements_of_one_class() {
    let mut file = File {
        stmts: vec![
            methods_of("A", vec![method("foo", "foo", false)]),
            typedef("T", None),
            Stmt::ExternCategory {
                id: id("Extras"),
                cls: id("A"),
                methods: vec![method("bar", "bar", false), method("foo", "foo", true)],
            },
            Stmt::ProtocolDecl {
                id: id("A"),
                availability: Availability::parse(vec![]),
                protocols: vec![],
                methods: vec![method("foo:", "foo", false)],
            },
            methods_of("B", vec![method("foo", "foo", true)]),
        ],
    };
    update_file(&mut file);
    assert_eq!(file.stmts.len(), 5);
    // The protocol's method clashes with the first one: both are of one
    // kind, and both are named after their selectors.
    assert_eq!(names(&file.stmts[0]), vec!["foo"]);
    assert_eq!(names(&file.stmts[2]), vec!["bar", "foo_class"]);
    assert_eq!(names(&file.stmts[3]), vec!["foo_"]);
    assert_eq!(names(&file.stmts[4]), vec!["foo"]);
}

#[test]
fn only_the_first_method_of_a_name_is_remembered() {
    // The second and the third method both clash with the first one.
    let mut file = File {
        stmts: vec![methods_of(
            "A",
            vec![
                method("foo", "foo", true),
                method("foo:", "foo", false),
                method("foo::", "foo", false),
            ],
        )],
    };
    disambiguate_names(&mut file);
    assert_eq!(names(&file.stmts[0]), vec!["foo_class_class", "foo", "foo"]);

    let mut file = File {
        stmts: vec![methods_of(
            "A",
            vec![
                method("foo", "foo", false),
                method("foo", "foo", true),
                method("foo:", "foo", false),
                method("foo", "foo_class", true),
            ],
        )],
    };
    disambiguate_names(&mut file);
    assert_eq!(
        names(&file.stmts[0]),
        vec!["foo", "foo_class", "foo_", "foo_class"]
    );
}

#[test]
fn a_typedef_is_merged_into_the_enumeration_that_follows() {
    let mut file = File {
        stmts: vec![
            typedef("NSOptions", None),
            enumeration("anonymous", "NSOptions"),
            typedef("Other", None),
            methods_of("A", vec![]),
            enumeration("E", "Other"),
        ],
    };
    merge_typedef_enums(&mut file);
    assert_eq!(file.stmts.len(), 4);
    match &file.stmts[0] {
        Stmt::EnumDecl { id: name, ty, kind, variants, sendable, .. } => {
            assert_eq!(*name, id("NSOptions"));
            assert_eq!(
                *ty,
                Ty { ty: Inner::C { name: "long".to_string() }, kind: TyKind::Typedef }
            );
            assert_eq!(*kind, Some(UnexposedAttr::Options));
            assert_eq!(variants.len(), 1);
            assert_eq!(*sendable, Some(true));
        }
        other => panic!("{:?}", other),
    }
    assert_eq!(file.stmts[1], typedef("Other", None));
    assert_eq!(file.stmts[2], methods_of("A", vec![]));
    assert_eq!(file.stmts[3], enumeration("E", "Other"));
}

#[test]
fn a_typedef_with_a_kind_or_another_name_is_kept() {
    let stmts = || {
        vec![
            typedef("A", Some(UnexposedAttr::Enum)),
            enumeration("x", "A"),
            typedef("B", None),
            enumeration("y", "NotB"),
            typedef("C", None),
            typedef("C", None),
            typedef("D", None),
        ]
    };
    let mut file = File { stmts: stmts() };
    update_file(&mut file);
    assert_eq!(file.stmts, stmts());
    let mut empty = File { stmts: vec![] };
    update_file(&mut empty);
    assert!(empty.stmts.is_empty());
}

#[test]
fn an_enumeration_takes_up_one_typedef_only() {
    let mut file = File {
        stmts: vec![
            typedef("A", None),
            typedef("A", None),
            enumeration("x", "A"),
            enumeration("y", "A"),
        ],
    };
    update_file(&mut file);
    assert_eq!(file.stmts.len(), 3);
    assert_eq!(file.stmts[0], typedef("A", None));
    match &file.stmts[1] {
        Stmt::EnumDecl { id: name, .. } => assert_eq!(*name, id("A")),
        other => panic!("{:?}", other),
    }
    assert_eq!(file.stmts[2], enumeration("y", "A"));
}

#[test]
fn every_file_of_a_library_is_analysed() {
    let file = || File {
        stmts: vec![
            typedef("T", None),
            enumeration("e", "T"),
            methods_of("A", vec![method("foo", "foo", false), method("foo", "foo", true)]),
        ],
    };
    let mut library = Library {
        files: vec![
            NamedFile { name: "NSArray".to_string(), file: file() },
            NamedFile { name: "NSString".to_string(), file: file() },
        ],
    };
    global_analysis(&mut library);
    assert_eq!(library.files.len(), 2);
    assert_eq!(library.files[0].name, "NSArray");
    assert_eq!(library.files[1].name, "NSString");
    for named in &library.files {
        assert_eq!(named.file.stmts.len(), 2);
        assert_eq!(names(&named.file.stmts[1]), vec!["foo", "foo_class"]);
    }
}

fn availability() -> Vec<PlatformAvailability> {
    vec![PlatformAvailability {
        platform: "macos".to_string(),
        unavailable: false,
        introduced: Some(Version { x: 10, y: Some(12), z: None }),
        deprecated: None,
        obsoleted: None,
        message: Some("use something else".to_string()),
    }]
}

fn attributes(copy: bool) -> ObjCAttributes {
    ObjCAttributes {
        readonly: false,
        getter: false,
        assign: false,
        readwrite: true,
        retain: false,
        copy,
        nonatomic: true,
        setter: false,
        atomic: false,
        weak: false,
        strong: false,
        unsafe_retained: false,
        class: false,
    }
}

fn property(copy: bool, setter: bool, children: Vec<EntityKind>) -> PartialProperty {
    PartialProperty {
        entity: PropertyEntity {
            platform_availability: Some(availability()),
            children,
            objc_qualifiers: None,
            ty: Some(Inner::Id {
                name: "NSString".to_string(),
                nullability: Nullability::Unspecified,
            }),
            is_objc_optional: true,
        },
        name: "title".to_string(),
        getter_name: "title".to_string(),
        setter_name: if setter { Some("setTitle".to_string()) } else { None },
        is_class: false,
        attributes: Some(attributes(copy)),
    }
}

fn data(skipped: bool) -> MethodData {
    MethodData { mutating: false, unsafe_: true, skipped }
}

#[test]
fn a_property_becomes_a_getter_and_a_setter() {
    let p = property(true, true, vec![EntityKind::TypeRef, EntityKind::ObjCReturnsInnerPointer]);
    let setter_data = MethodData { mutating: true, unsafe_: false, skipped: false };
    assert!(p.can_parse(data(false), Some(setter_data)));
    let (getter, setter) = p.parse(data(false), Some(setter_data));
    let getter = getter.unwrap();
    assert_eq!(getter.selector, "title");
    assert_eq!(getter.fn_name, "title");
    assert_eq!(getter.availability, Availability::parse(availability()));
    assert!(!getter.is_class);
    assert!(getter.is_optional_protocol);
    assert_eq!(getter.memory_management, MemoryManagement::ReturnsInnerPointer);
    assert!(!getter.designated_initializer);
    assert!(getter.arguments.is_empty());
    assert_eq!(
        getter.result_type,
        Ty {
            ty: Inner::Id { name: "NSString".to_string(), nullability: Nullability::NonNull },
            kind: TyKind::MethodReturn
        }
    );
    assert!(!getter.safe);
    assert!(!getter.mutating);

    let setter = setter.unwrap();
    assert_eq!(setter.selector, "setTitle:");
    assert_eq!(setter.fn_name, "setTitle");
    assert_eq!(setter.availability, Availability::parse(availability()));
    assert_eq!(setter.memory_management, MemoryManagement::ReturnsInnerPointer);
    assert_eq!(
        setter.arguments,
        vec![Argument {
            name: "title".to_string(),
            qualifier: None,
            ty: Ty {
                ty: Inner::Id {
                    name: "NSString".to_string(),
                    nullability: Nullability::Unspecified
                },
                kind: TyKind::MethodArgument
            }
        }]
    );
    assert_eq!(setter.result_type, Ty::void_result());
    assert!(setter.safe);
    assert!(setter.mutating);
}

#[test]
fn skipped_methods_are_not_made() {
    let (getter, setter) = property(false, true, vec![]).parse(data(true), Some(data(true)));
    assert!(getter.is_none());
    assert!(setter.is_none());
    let (getter, setter) = property(false, false, vec![]).parse(data(false), None);
    let getter = getter.unwrap();
    assert_eq!(getter.memory_management, MemoryManagement::Normal);
    assert_eq!(
        getter.result_type,
        Ty {
            ty: Inner::Id {
                name: "NSString".to_string(),
                nullability: Nullability::Unspecified
            },
            kind: TyKind::MethodReturn
        }
    );
    assert!(setter.is_none());
    // Setter data without a setter name is not used.
    let (_, setter) = property(false, false, vec![]).parse(data(false), Some(data(false)));
    assert!(setter.is_none());
}

#[test]
fn a_stated_nullability_is_kept() {
    let mut p = property(true, false, vec![]);
    p.entity.ty = Some(Inner::Id {
        name: "NSString".to_string(),
        nullability: Nullability::Nullable,
    });
    let (getter, _) = p.parse(data(false), None);
    assert_eq!(
        getter.unwrap().result_type.ty,
        Inner::Id { name: "NSString".to_string(), nullability: Nullability::Nullable }
    );
    let mut p = property(true, false, vec![]);
    p.entity.ty = Some(Inner::C { name: "int".to_string() });
    p.attributes = None;
    let (getter, _) = p.parse(data(false), None);
    assert_eq!(getter.unwrap().result_type.ty, Inner::C { name: "int".to_string() });
}

#[test]
fn what_cannot_be_parsed_is_told_beforehand() {
    let ok = |p: &PartialProperty| p.can_parse(data(false), Some(data(false)));
    assert!(ok(&property(false, true, vec![])));
    assert!(ok(&property(
        false,
        true,
        vec![
            EntityKind::ObjCClassRef,
            EntityKind::ObjCProtocolRef,
            EntityKind::TypeRef,
            EntityKind::ParmDecl,
            EntityKind::ObjCInstanceMethodDecl,
            EntityKind::IbOutletAttr,
            EntityKind::UnexposedAttr,
            EntityKind::ObjCReturnsInnerPointer,
        ]
    )));
    assert!(!ok(&property(false, true, vec![EntityKind::TypeRef, EntityKind::Other])));
    assert!(!ok(&property(
        false,
        true,
        vec![
            EntityKind::ObjCReturnsInnerPointer,
            EntityKind::TypeRef,
            EntityKind::ObjCReturnsInnerPointer
        ]
    )));
    let mut p = property(false, true, vec![]);
    p.entity.platform_availability = None;
    assert!(!ok(&p));
    let mut p = property(false, true, vec![]);
    p.entity.objc_qualifiers = Some(ObjCQualifiers {
        in_: true,
        inout: false,
        out: false,
        bycopy: false,
        byref: false,
        oneway: false,
    });
    assert!(!ok(&p));
    let mut p = property(false, true, vec![]);
    p.entity.ty = None;
    assert!(!ok(&p));
    assert!(p.can_parse(data(true), Some(data(true))));
    assert!(!p.can_parse(data(true), Some(data(false))));
    // A setter name asks for setter data.
    assert!(!property(false, true, vec![]).can_parse(data(false), None));
    assert!(property(false, false, vec![]).can_parse(data(false), None));
}

#[test]
fn types_know_their_typedef() {
    let ty = Ty { ty: Inner::TypeDef { name: "NSInteger".to_string() }, kind: TyKind::Enum };
    assert!(ty.is_typedef_to(&"NSInteger".to_string()));
    assert!(!ty.is_typedef_to(&"NSUInteger".to_string()));
    assert!(!Ty::void_result().is_typedef_to(&"NSInteger".to_string()));
    assert_eq!(ty.duplicate(), ty);
    assert_eq!(id("A").duplicate(), id("A"));
    let a = Availability::parse(availability());
    assert_eq!(a.duplicate(), a);
    assert_eq!(a.len(), 1);
    assert_eq!(a.get(0).unwrap().platform, "macos");
    assert!(a.get(1).is_none());
}

#[test]
fn resizing_modes_depend_on_the_target() {
    let intel_mac = Target { arch: Arch::X86_64, os: Os::MacOs };
    let old_intel_mac = Target { arch: Arch::X86, os: Os::MacOs };
    let arm_mac = Target { arch: Arch::Aarch64, os: Os::MacOs };
    let simulator = Target { arch: Arch::X86_64, os: Os::Ios };
    let phone = Target { arch: Arch::Aarch64, os: Os::Ios };
    assert!(!target_abi_uses_ios_values(intel_mac));
    assert!(!target_abi_uses_ios_values(old_intel_mac));
    assert!(target_abi_uses_ios_values(arm_mac));
    assert!(target_abi_uses_ios_values(simulator));
    assert!(target_abi_uses_ios_values(phone));
    assert_eq!(NSImageResizingMode::stretch(intel_mac), NSImageResizingMode(1));
    assert_eq!(NSImageResizingMode::tile(intel_mac), NSImageResizingMode(0));
    assert_eq!(NSImageResizingMode::stretch(arm_mac), NSImageResizingMode(0));
    assert_eq!(NSImageResizingMode::tile(arm_mac), NSImageResizingMode(1));
    assert_eq!(NSImageResizingMode::stretch(phone), NSImageResizingMode(0));
    assert_eq!(NSImageResizingMode::tile(simulator), NSImageResizingMode(1));
    assert!(NSImageResizingMode(0) < NSImageResizingMode(1));
}
