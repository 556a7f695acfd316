use python_codegen::type_text;
use python_codegen::type_text::read_pointee;
use python_codegen::value::{BasicType, Precision, Target};

fn read_type(text: &str) -> BasicType {
    type_text::read_type(&vec![], text)
}

fn read_function(text: &str) -> type_text::FunctionText {
    type_text::read_function(&vec![], text)
}

#[test]
fn number_types_are_read() {
    assert_eq!(read_type("i1"), BasicType::Int { width: 1 });
    assert_eq!(read_type("i16"), BasicType::Int { width: 16 });
    assert_eq!(read_type("i8388608"), BasicType::Int { width: 8388608 });
    for text in ["i8388609", "i0", "i", "i16x", "i12345678", ""] {
        assert_eq!(read_type(text), BasicType::Unknown);
    }
    let precisions = [
        ("half", Precision::Half),
        ("float", Precision::Single),
        ("double", Precision::Double),
        ("x86_fp80", Precision::Extended),
        ("fp128", Precision::Quadruple),
        ("ppc_fp128", Precision::PairedDouble),
    ];
    for (text, precision) in precisions {
        assert_eq!(read_type(text), BasicType::Float { precision });
    }
}

#[test]
fn other_types_are_read() {
    assert_eq!(read_type("[4 x i16]"), BasicType::Array { sized: true });
    assert_eq!(read_type("[4 x %T]"), BasicType::Array { sized: false });
    assert_eq!(read_type("{ i8, i16 }"), BasicType::Struct);
    assert_eq!(read_type("<{ i8, i16 }>"), BasicType::Struct);
    assert_eq!(read_type("%T = type opaque"), BasicType::Struct);
    assert_eq!(read_type("<4 x i32>"), BasicType::Vector);
    let odd = ["<vscale x 4 x i32>", "bfloat", "metadata", "token", "x86_mmx", "x86_amx", "label"];
    for text in odd {
        assert_eq!(read_type(text), BasicType::Unknown);
    }
    assert_eq!(read_type("void"), BasicType::Unknown);
    assert_eq!(read_type("i8 (i16)"), BasicType::Unknown);
}

#[test]
fn pointers_tell_what_they_point_to() {
    let byte = Target::Int { width: 8 };
    assert_eq!(read_type("i8*"), BasicType::Pointer { target: byte });
    let target = Target::Float { precision: Precision::Double };
    assert_eq!(read_type("double*"), BasicType::Pointer { target });
    for text in ["i8**", "%T*", "[2 x i8]*", "i8 addrspace(1)*", "bfloat*", "void (i8)*"] {
        assert_eq!(read_type(text), BasicType::Pointer { target: Target::Unlisted });
    }
    assert_eq!(read_pointee("i16*"), "i16");
    assert_eq!(read_pointee("i16 addrspace(3)*"), "i16");
    assert_eq!(read_pointee("i8**"), "i8*");
    assert_eq!(read_pointee("void (i8)*"), "void (i8)");
    assert_eq!(read_pointee("ptr"), "");
    assert_eq!(read_pointee("i8 addrspace(1)**"), "i8 addrspace(1)*");
    assert_eq!(read_pointee("i8 addrspace(1)* addrspace(22)*"), "i8 addrspace(1)*");
    assert_eq!(read_pointee("void (i8) addrspace(1)*"), "void (i8)");
    assert_eq!(read_pointee("i8 (i16* addrspace(1)*)*"), "i8 (i16* addrspace(1)*)");
}

#[test]
fn listed_pointer_types_are_told_apart() {
    let listed = vec!["i8**".to_string(), "%T*".to_string()];
    let read = |text: &str| type_text::read_type(&listed, text);
    let number = |number: usize| BasicType::Pointer { target: Target::Listed { number } };
    assert_eq!(read("i8**"), number(0));
    assert_eq!(read("%T*"), number(1));
    assert_eq!(read("%U*"), BasicType::Pointer { target: Target::Unlisted });
    assert_eq!(read("i8*"), BasicType::Pointer { target: Target::Int { width: 8 } });
}

#[test]
fn structs_without_names_are_not_told_apart() {
    let texts = ["%\"type 0x55d0\"*", "{ i8, %\"type 0x1\"* }*", "%\"type 0x1\""];
    for text in texts {
        assert!(type_text::is_unnamed(text));
    }
    for text in ["%\"my type\"*", "%type*", "%\"type\"*", "i8**", ""] {
        assert!(!type_text::is_unnamed(text));
    }
    let listed = vec![texts[0].to_string(), "%\"my type\"*".to_string()];
    let target = Target::Unlisted;
    assert_eq!(type_text::read_type(&listed, texts[0]), BasicType::Pointer { target });
    let target = Target::Listed { number: 1 };
    assert_eq!(type_text::read_type(&listed, "%\"my type\"*"), BasicType::Pointer { target });
}

#[test]
fn functions_are_no_values() {
    let texts = [
        "void (i8)",
        "[4 x i8] (i16)",
        "<4 x i32> (i16)",
        "{ i8, i8 } (i16)",
        "<{ i8 }> ()",
        "%T (i16)",
        "i8* (i16)",
        "i8 (i16)",
        "float ()",
        "i8 (i16* addrspace(1)*)",
        "%T (i8 addrspace(1)*)",
    ];
    for text in texts {
        assert_eq!(read_type(text), BasicType::Unknown);
        assert_eq!(read_type(read_pointee(&format!("{}*", text))), BasicType::Unknown);
    }
}

#[test]
fn function_types_are_read() {
    let known = |text: &str| read_function(text).known;
    assert!(known("void ()"));
    assert!(known("i16 (i16, float)"));
    assert!(known("i32 (i8*, ...)"));
    assert!(known("i32 (...)"));
    assert!(known("void ({ i8, bfloat, i8 }, [2 x bfloat], bfloat*, void (metadata)*)"));
    assert!(known("void (%\"odd, name(\"*, <4 x i8>)"));
    assert!(known("void (metadata)* (i8)"));
    assert!(!known("void (metadata)"));
    assert!(!known("void (i8, bfloat)"));
    assert!(!known("void (bfloat, i8)"));
    assert!(!known("void (i8, token, i8)"));
    assert!(!known("void (x86_mmx)"));
    assert!(!known("void (<vscale x 4 x i32>)"));
    assert!(!known("i8"));
    assert_eq!(read_function("void (i8)").result, None);
    assert_eq!(read_function("i16 ()").result, Some(BasicType::Int { width: 16 }));
    let precision = Precision::Double;
    assert_eq!(read_function("double (i8)").result, Some(BasicType::Float { precision }));
    assert_eq!(read_function("metadata ()").result, Some(BasicType::Unknown));
    assert_eq!(read_function("bfloat (i8)").result, Some(BasicType::Unknown));
    assert_eq!(read_function("{ i8, i8 } (i8)").result, Some(BasicType::Struct));
    let target = Target::Unlisted;
    assert_eq!(read_function("void (i32)* (i8)").result, Some(BasicType::Pointer { target }));
}
