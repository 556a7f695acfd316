use inkwell::context::Context;
use inkwell::module::Module;
use inkwell::values::{AnyValue, PointerValue};
use inkwell::AddressSpace;
use python_codegen::ast::{
    Expression, ExpressionType, Keyword, Location, Number, Operator, StringGroup,
};
use python_codegen::codegen::CodeGen;
use python_codegen::error::{LLVMCompileErrorType, Message};
use python_codegen::integer::Integer;
use python_codegen::scope::MangledNames;
use python_codegen::typing::Obstacle;
use python_codegen::value::{BasicType, Precision, Shape, Target, Value, ValueType};

const SINGLE: BasicType = BasicType::Float { precision: Precision::Single };

/// A generator in a function that has a variable `x` of 16 bits, `b` of 8 bits, `t` of one bit and
/// `f` in single precision, in a module with some functions to call.
fn with_functions(context: &Context) -> CodeGen<'_> {
    with_module(context, |_| ())
}

/// The same, with what `more` adds to the module.
fn with_module<'ctx, F>(context: &'ctx Context, more: F) -> CodeGen<'ctx>
where
    F: FnOnce(&Module<'ctx>),
{
    let module = context.create_module("calls");
    let builder = context.create_builder();
    let nothing = context.void_type();
    let (one, byte, word) = (context.bool_type(), context.i8_type(), context.i16_type());
    let single = context.f32_type();
    let text = byte.ptr_type(AddressSpace::default());
    module.add_function("tick", nothing.fn_type(&[], false), None);
    module.add_function("take_bit", nothing.fn_type(&[one.into()], false), None);
    module.add_function("take_byte", byte.fn_type(&[byte.into()], false), None);
    module.add_function("take_word", word.fn_type(&[word.into()], false), None);
    module.add_function("take_wide", nothing.fn_type(&[context.i32_type().into()], false), None);
    module.add_function("take_float", single.fn_type(&[single.into()], false), None);
    module.add_function("take_text", nothing.fn_type(&[text.into()], false), None);
    module.add_function("two", word.fn_type(&[word.into(), single.into()], false), None);
    module.add_function("give_wide", context.i32_type().fn_type(&[], false), None);
    module.add_function("give_text", text.fn_type(&[], false), None);
    let double = context.f64_type();
    module.add_function("take_double", double.fn_type(&[double.into()], false), None);
    let number = context.i32_type().ptr_type(AddressSpace::default());
    module.add_function("take_place", nothing.fn_type(&[number.into()], false), None);
    module.add_function("print", nothing.fn_type(&[text.into()], true), None);
    module.add_function("show_i16", nothing.fn_type(&[word.into()], false), None);
    module.add_function("show_float", nothing.fn_type(&[single.into()], false), None);
    module.add_function("show_none", nothing.fn_type(&[], false), None);
    let main = module.add_function("main", nothing.fn_type(&[], false), None);
    builder.position_at_end(context.append_basic_block(main, "entry"));
    let places: Vec<(&str, ValueType, PointerValue<'ctx>)> = vec![
        ("x", ValueType::I16, builder.build_alloca(word, "xp")),
        ("b", ValueType::I8, builder.build_alloca(byte, "bp")),
        ("t", ValueType::Bool, builder.build_alloca(one, "tp")),
        ("f", ValueType::F32, builder.build_alloca(single, "fp")),
        ("d", ValueType::F32, builder.build_alloca(double, "dp")),
    ];
    more(&module);
    let mut codegen = CodeGen::new(module);
    assert!(codegen.enter_function("main".to_string(), "body"));
    for (name, value_type, place) in places {
        let function = Some("main".to_string());
        codegen.declare_variable(function, name.to_string(), value_type, place).unwrap();
    }
    codegen.declare_mangled("show".to_string(), show());
    codegen
}

fn show() -> MangledNames {
    MangledNames {
        for_void: "show_none".to_string(),
        for_bool: "show_bool".to_string(),
        for_i8: "show_i8".to_string(),
        for_i16: "show_i16".to_string(),
        for_f32: "show_float".to_string(),
        for_str: "show_str".to_string(),
        for_array: "show_array".to_string(),
    }
}

fn place(column: usize, node: ExpressionType) -> Expression {
    Expression { location: Location { row: 2, column }, node }
}

fn whole(n: u64) -> Expression {
    let value = Integer { negative: false, digits: vec![n] };
    place(3, ExpressionType::Number { value: Number::Integer { value } })
}

fn fraction(value: f64) -> Expression {
    place(3, ExpressionType::Number { value: Number::Float { bits: value.to_bits() } })
}

fn variable(name: &str) -> Expression {
    place(4, ExpressionType::Identifier { name: name.to_string() })
}

fn string(text: &str) -> Expression {
    let value = StringGroup::Constant { value: text.to_string() };
    place(5, ExpressionType::String { value })
}

fn none() -> Expression {
    place(6, ExpressionType::NoneConstant)
}

fn call(name: &str, args: Vec<Expression>) -> Expression {
    let function = Box::new(variable(name));
    place(7, ExpressionType::Call { function, args, keywords: vec![] })
}

/// The instructions of `expr`, as LLVM prints them.
fn code_of(expr: Expression) -> Vec<String> {
    let context = Context::create();
    let mut codegen = with_functions(&context);
    assert!(codegen.check_expr(&expr).is_ok());
    codegen.emit_expr(&expr).unwrap();
    body(codegen)
}

fn body(codegen: CodeGen<'_>) -> Vec<String> {
    let code = codegen.into_module().print_to_string().to_string();
    let lines = code.lines().map(|line| line.trim().to_string());
    let lines = lines.filter(|line| line.starts_with('%') || line.starts_with("tail"));
    lines.filter(|line| !line.contains("alloca") && !line.contains(" = type ")).collect()
}

fn not_supported(expr: Expression) {
    let context = Context::create();
    let mut codegen = with_functions(&context);
    assert_eq!(codegen.check_expr(&expr), Err(Obstacle::Unsupported));
    assert!(codegen.try_emit_expr(&expr).is_none());
    assert!(body(codegen).is_empty());
}

#[test]
fn call_without_arguments_or_result() {
    let context = Context::create();
    let mut codegen = with_functions(&context);
    let expr = call("tick", vec![]);
    let shape = Shape { value_type: ValueType::Void, kind: None, constant: false };
    assert_eq!(codegen.check_expr(&expr), Ok(shape));
    assert_eq!(codegen.emit_expr(&expr).unwrap(), Value::Void);
    assert_eq!(body(codegen), vec!["tail call void @tick()"]);
}

#[test]
fn result_has_the_type_of_the_function() {
    let expected = vec![
        (call("take_byte", vec![variable("b")]), ValueType::I8, BasicType::Int { width: 8 }),
        (call("take_word", vec![variable("x")]), ValueType::I16, BasicType::Int { width: 16 }),
        (call("take_float", vec![variable("f")]), ValueType::F32, SINGLE),
    ];
    for (expr, value_type, kind) in expected {
        let context = Context::create();
        let mut codegen = with_functions(&context);
        let shape = Shape { value_type, kind: Some(kind), constant: false };
        assert_eq!(codegen.check_expr(&expr), Ok(shape));
        let value = codegen.emit_expr(&expr).unwrap();
        assert_eq!(value.get_type(), value_type);
        let printed = codegen.llvm_value(value).unwrap().print_to_string().to_string();
        assert!(printed.trim().starts_with("%call = tail call"));
    }
    not_supported(call("give_wide", vec![]));
    not_supported(call("give_text", vec![]));
}

#[test]
fn arguments_are_converted_to_the_types_of_parameters() {
    assert_eq!(
        code_of(call("take_word", vec![whole(5)])),
        vec!["%call = tail call i16 @take_word(i16 5)"]
    );
    assert_eq!(
        code_of(call("take_byte", vec![whole(258)])),
        vec!["%call = tail call i8 @take_byte(i8 2)"]
    );
    assert_eq!(
        code_of(call("take_byte", vec![variable("x")])),
        vec![
            "%x = load i16, i16* %xp, align 2",
            "%itrunc = trunc i16 %x to i8",
            "%call = tail call i8 @take_byte(i8 %itrunc)",
        ]
    );
    assert_eq!(
        code_of(call("take_word", vec![variable("b")])),
        vec![
            "%b = load i8, i8* %bp, align 1",
            "%icast = sext i8 %b to i16",
            "%call = tail call i16 @take_word(i16 %icast)",
        ]
    );
    assert_eq!(
        code_of(call("take_bit", vec![variable("b")])),
        vec![
            "%b = load i8, i8* %bp, align 1",
            "%icast = trunc i8 %b to i1",
            "tail call void @take_bit(i1 %icast)",
        ]
    );
    assert_eq!(
        code_of(call("take_bit", vec![variable("t")])),
        vec!["%t = load i1, i1* %tp, align 1", "tail call void @take_bit(i1 %t)"]
    );
    assert_eq!(
        code_of(call("take_float", vec![fraction(1.5)])),
        vec!["%call = tail call float @take_float(float 1.500000e+00)"]
    );
    let text = code_of(call("take_text", vec![string("hi")]));
    assert_eq!(text.len(), 1);
    assert!(text[0].starts_with("tail call void @take_text(i8* getelementptr inbounds"));
    assert!(text[0].contains("[3 x i8]* @.str"));
}

#[test]
fn arguments_that_do_not_fit_are_unsupported() {
    not_supported(call("take_word", vec![place(1, ExpressionType::True)]));
    not_supported(call("take_wide", vec![whole(1)]));
    not_supported(call("take_float", vec![whole(1)]));
    not_supported(call("take_word", vec![fraction(1.0)]));
    not_supported(call("take_word", vec![string("x")]));
    not_supported(call("take_text", vec![whole(1)]));
    assert_eq!(
        code_of(call("take_wide", vec![variable("b")])),
        vec![
            "%b = load i8, i8* %bp, align 1",
            "%icast = sext i8 %b to i32",
            "tail call void @take_wide(i32 %icast)",
        ]
    );
}

#[test]
fn precisions_and_pointers_must_be_those_of_the_parameters() {
    not_supported(call("take_double", vec![fraction(1.0)]));
    not_supported(call("take_double", vec![variable("f")]));
    not_supported(call("take_float", vec![variable("d")]));
    not_supported(call("take_place", vec![string("x")]));
    assert_eq!(
        code_of(call("take_double", vec![variable("d")])),
        vec![
            "%d = load double, double* %dp, align 8",
            "%call = tail call double @take_double(double %d)",
        ]
    );
}

#[test]
fn strings_of_any_pointer_type_are_passed_as_they_are() {
    let context = Context::create();
    let zero = AddressSpace::default();
    let byte = context.i8_type();
    let opaque = context.opaque_struct_type("opaque");
    let kinds = vec![
        (byte.ptr_type(zero).ptr_type(zero), "i8**"),
        (opaque.ptr_type(zero), "%opaque*"),
        (byte.ptr_type(AddressSpace::from(1)), "i8 addrspace(1)*"),
        (context.opaque_struct_type("my type").ptr_type(zero), "%\"my type\"*"),
    ];
    for (index, (kind, text)) in kinds.iter().enumerate() {
        let mut place = None;
        let mut codegen = with_module(&context, |module| {
            for (number, (kind, _)) in kinds.iter().enumerate() {
                let take = context.void_type().fn_type(&[(*kind).into()], false);
                module.add_function(&format!("take{}", number), take, None);
            }
            place = Some(module.add_global(*kind, None, "place").as_pointer_value());
        });
        let name = "p".to_string();
        codegen.declare_variable(None, name, ValueType::Str, place.unwrap()).unwrap();
        for number in 0..kinds.len() {
            let expr = call(&format!("take{}", number), vec![variable("p")]);
            if number == index {
                assert!(codegen.check_expr(&expr).is_ok());
                codegen.emit_expr(&expr).unwrap();
            } else {
                assert_eq!(codegen.check_expr(&expr), Err(Obstacle::Unsupported));
            }
        }
        let code = body(codegen);
        assert_eq!(code.len(), 2);
        assert!(code[0].starts_with(&format!("%p = load {}, {}* @place", text, text)));
        assert_eq!(code[1], format!("tail call void @take{}({} %p)", index, text));
    }
}

#[test]
fn pointers_to_structs_without_names_are_unsupported() {
    let context = Context::create();
    let kind = context.opaque_struct_type("").ptr_type(AddressSpace::default());
    let mut place = None;
    let mut codegen = with_module(&context, |module| {
        let take = context.void_type().fn_type(&[kind.into()], false);
        module.add_function("take", take, None);
        place = Some(module.add_global(kind, None, "place").as_pointer_value());
    });
    let name = "p".to_string();
    let slot = codegen.declare_variable(None, name, ValueType::Str, place.unwrap()).unwrap();
    assert_eq!(slot.pointee, BasicType::Pointer { target: Target::Unlisted });
    assert!(codegen.check_expr(&variable("p")).is_ok());
    let expr = call("take", vec![variable("p")]);
    assert_eq!(codegen.check_expr(&expr), Err(Obstacle::Unsupported));
}

#[test]
fn functions_with_other_parameters_are_unsupported() {
    let context = Context::create();
    let (word, note) = (context.i16_type(), context.metadata_type());
    let take = context.void_type().fn_type(&[word.into(), note.into()], false);
    let mut codegen = with_module(&context, |module| {
        module.add_function("take_note", take, None);
        module.add_function("give_note", note.fn_type(&[], false), None);
    });
    let expressions =
        vec![call("take_note", vec![whole(1), whole(2)]), call("give_note", vec![])];
    for expr in expressions.iter() {
        assert_eq!(codegen.check_expr(expr), Err(Obstacle::Unsupported));
        assert!(codegen.try_emit_expr(expr).is_none());
    }
    // The first argument comes before the parameters.
    let missing = call("take_note", vec![variable("missing"), whole(2)]);
    assert_eq!(codegen.check_expr(&missing), Err(Obstacle::Refused));
}

#[test]
fn only_the_named_parameters_of_a_variadic_function_are_passed() {
    let code = code_of(call("print", vec![string("hi"), variable("x")]));
    assert_eq!(code.len(), 1);
    assert!(code[0].starts_with("tail call void (i8*, ...) @print(i8* getelementptr"));
}

#[test]
fn arguments_are_evaluated_once_from_left_to_right() {
    let inner = call("take_float", vec![variable("f")]);
    assert_eq!(
        code_of(call("two", vec![variable("x"), inner])),
        vec![
            "%x = load i16, i16* %xp, align 2",
            "%f = load float, float* %fp, align 4",
            "%call = tail call float @take_float(float %f)",
            "%call1 = tail call i16 @two(i16 %x, float %call)",
        ]
    );
}

#[test]
fn too_few_arguments_are_unsupported() {
    not_supported(call("take_word", vec![]));
    not_supported(call("two", vec![whole(1)]));
}

#[test]
fn extra_arguments_are_ignored() {
    let expected = vec!["%call = tail call i16 @take_word(i16 5)"];
    assert_eq!(code_of(call("take_word", vec![whole(5)])), expected);
    assert_eq!(code_of(call("take_word", vec![whole(5), variable("x")])), expected);
    assert_eq!(code_of(call("take_word", vec![whole(5), variable("missing"), none()])), expected);
}

#[test]
fn first_argument_has_code_even_if_it_is_not_passed() {
    assert_eq!(
        code_of(call("tick", vec![variable("x"), variable("b")])),
        vec!["%x = load i16, i16* %xp, align 2", "tail call void @tick()"]
    );
}

#[test]
fn keyword_arguments_are_ignored() {
    let keywords = vec![
        Keyword { name: Some("end".to_string()), value: variable("missing") },
        Keyword { name: None, value: none() },
    ];
    let function = Box::new(variable("take_word"));
    let expr = place(1, ExpressionType::Call { function, args: vec![whole(5)], keywords });
    assert_eq!(code_of(expr), code_of(call("take_word", vec![whole(5)])));
}

#[test]
fn first_argument_tells_which_function_is_meant() {
    assert_eq!(code_of(call("show", vec![whole(5)])), vec!["tail call void @show_i16(i16 5)"]);
    assert_eq!(
        code_of(call("show", vec![fraction(0.5)])),
        vec!["tail call void @show_float(float 5.000000e-01)"]
    );
    assert_eq!(code_of(call("show", vec![])), vec!["tail call void @show_none()"]);
}

#[test]
fn exact_name_is_preferred_to_the_mangled_one() {
    let context = Context::create();
    let kind = context.void_type().fn_type(&[context.i16_type().into()], false);
    let mut codegen = with_module(&context, |module| {
        module.add_function("show", kind, None);
    });
    codegen.emit_expr(&call("show", vec![whole(5)])).unwrap();
    assert_eq!(body(codegen), vec!["tail call void @show(i16 5)"]);
}

#[test]
fn later_mangled_names_replace_earlier_ones() {
    let context = Context::create();
    let mut codegen = with_functions(&context);
    let names = MangledNames { for_i16: "take_word".to_string(), ..show() };
    codegen.declare_mangled("show".to_string(), names);
    codegen.emit_expr(&call("show", vec![whole(5)])).unwrap();
    assert_eq!(body(codegen), vec!["%call = tail call i16 @take_word(i16 5)"]);
}

#[test]
fn unknown_function_is_a_name_error_after_the_first_argument() {
    let context = Context::create();
    let mut codegen = with_functions(&context);
    // Neither the name nor what it is mangled to for a boolean is there.
    let expressions = vec![
        call("absent", vec![variable("x"), variable("b")]),
        call("show", vec![variable("t")]),
    ];
    let names = vec!["absent", "show"];
    for (expr, name) in expressions.iter().zip(names) {
        assert_eq!(codegen.check_expr(expr), Err(Obstacle::Refused));
        let error = codegen.emit_expr(expr).unwrap_err();
        assert_eq!(error.error, LLVMCompileErrorType::NameError);
        assert_eq!(error.location, Location { row: 2, column: 4 });
        match error.message {
            Message::Text(text) => assert_eq!(text, name),
            _ => panic!("the message is no text"),
        }
    }
    let expr = call("absent", vec![]);
    let error = codegen.emit_expr(&expr).unwrap_err();
    assert_eq!(error.location, Location { row: 2, column: 7 });
    assert_eq!(
        body(codegen),
        vec!["%x = load i16, i16* %xp, align 2", "%t = load i1, i1* %tp, align 1"]
    );
}

#[test]
fn calling_anything_but_a_name_is_refused() {
    let context = Context::create();
    let mut codegen = with_functions(&context);
    let function = Box::new(call("tick", vec![]));
    let args = vec![variable("x")];
    let expr = place(9, ExpressionType::Call { function, args, keywords: vec![] });
    assert_eq!(codegen.check_expr(&expr), Err(Obstacle::Refused));
    let error = codegen.emit_expr(&expr).unwrap_err();
    assert_eq!(error.error, LLVMCompileErrorType::NotImplemented);
    assert_eq!(error.location, Location { row: 2, column: 9 });
    match error.message {
        Message::Text(text) => assert_eq!(text, "Calling method is not implemented."),
        _ => panic!("the message is no text"),
    }
    assert!(body(codegen).is_empty());
}

#[test]
fn arguments_without_a_number_or_text_are_refused() {
    let list = || place(8, ExpressionType::List { elements: vec![whole(1)] });
    let cases = vec![
        (call("take_word", vec![none()]), "Unimplemented argument type 'Void'", 6),
        (call("take_word", vec![list()]), "Unimplemented argument type 'Array'", 3),
        (call("two", vec![whole(1), none()]), "Unimplemented argument type 'Void'", 6),
    ];
    for (expr, message, column) in cases {
        let context = Context::create();
        let mut codegen = with_functions(&context);
        assert_eq!(codegen.check_expr(&expr), Err(Obstacle::Refused));
        let error = codegen.emit_expr(&expr).unwrap_err();
        assert_eq!(error.error, LLVMCompileErrorType::NotImplemented);
        assert_eq!(error.location, Location { row: 2, column });
        match error.message {
            Message::Text(text) => assert_eq!(text, message),
            _ => panic!("the message is no text"),
        }
    }
}

#[test]
fn results_can_be_used_further() {
    let left = call("take_word", vec![whole(1)]);
    let right = call("take_float", vec![fraction(2.0)]);
    let sum = ExpressionType::Binop { a: Box::new(left), op: Operator::Add, b: Box::new(right) };
    assert_eq!(
        code_of(call("take_float", vec![place(1, sum)])),
        vec![
            "%call = tail call i16 @take_word(i16 1)",
            "%call1 = tail call float @take_float(float 2.000000e+00)",
            "%sitofp = sitofp i16 %call to float",
            "%add = fadd float %sitofp, %call1",
            "%call2 = tail call float @take_float(float %add)",
        ]
    );
}

#[test]
fn llvm_accepts_the_code() {
    let context = Context::create();
    let mut codegen = with_functions(&context);
    let inner = call("take_float", vec![fraction(2.0)]);
    let sum = ExpressionType::Binop {
        a: Box::new(variable("x")),
        op: Operator::Div,
        b: Box::new(variable("b")),
    };
    let product = ExpressionType::Binop {
        a: Box::new(place(1, sum)),
        op: Operator::Mult,
        b: Box::new(inner),
    };
    let expressions = vec![
        call("two", vec![variable("x"), place(1, product)]),
        call("take_text", vec![string("text")]),
        call("show", vec![variable("x")]),
        call("take_byte", vec![call("take_word", vec![variable("b")])]),
        call("take_bit", vec![variable("t")]),
    ];
    for expr in expressions.iter() {
        assert!(codegen.check_expr(expr).is_ok());
        codegen.emit_expr(expr).unwrap();
    }
    let module = codegen.into_module();
    let main = module.get_function("main").unwrap();
    let builder = context.create_builder();
    let (entry, last) = (main.get_first_basic_block(), main.get_last_basic_block());
    builder.position_at_end(entry.unwrap());
    builder.build_unconditional_branch(last.unwrap());
    builder.position_at_end(last.unwrap());
    builder.build_return(None);
    assert!(module.verify().is_ok());
}
