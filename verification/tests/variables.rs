use inkwell::context::Context;
use inkwell::module::Module;
use inkwell::values::{AnyValue, PointerValue};
use inkwell::AddressSpace;
use python_codegen::ast::{Expression, ExpressionType, Location};
use python_codegen::codegen::CodeGen;
use python_codegen::error::{LLVMCompileErrorType, Message};
use python_codegen::scope::{MangledNames, Mangler, Variable, Variables};
use python_codegen::typing::Obstacle;
use python_codegen::value::{BasicType, Precision, Shape, Target, ValueType};

fn identifier(name: &str) -> Expression {
    let node = ExpressionType::Identifier { name: name.to_string() };
    Expression { location: Location { row: 3, column: 4 }, node }
}

/// A module with the functions `main` and `other`.
fn two_functions(context: &Context) -> Module<'_> {
    let module = context.create_module("variables");
    module.add_function("main", context.void_type().fn_type(&[], false), None);
    module.add_function("other", context.void_type().fn_type(&[], false), None);
    module
}

/// A global of 16 bits.
fn short<'ctx>(context: &'ctx Context, module: &Module<'ctx>, name: &str) -> PointerValue<'ctx> {
    module.add_global(context.i16_type(), None, name).as_pointer_value()
}

/// A generator that puts code into a block of `main`, and is at the top level.
fn at_top_level(module: Module<'_>) -> CodeGen<'_> {
    let mut codegen = CodeGen::new(module);
    assert!(codegen.enter_function("main".to_string(), "entry"));
    codegen.leave_function();
    codegen
}

/// What LLVM prints for the value of the variable `name`.
fn loaded(codegen: &mut CodeGen<'_>, name: &str) -> String {
    let expr = identifier(name);
    let shape = codegen.check_expr(&expr).unwrap();
    let value = codegen.emit_expr(&expr).unwrap();
    assert_eq!(shape.value_type, value.get_type());
    assert!(!shape.constant);
    codegen.llvm_value(value).unwrap().print_to_string().to_string().trim().to_string()
}

#[test]
fn global_is_seen_at_the_top_level_and_in_functions() {
    let context = Context::create();
    let module = two_functions(&context);
    let pointer = short(&context, &module, "g");
    let mut codegen = at_top_level(module);
    let slot = codegen.declare_variable(None, "n".to_string(), ValueType::I16, pointer).unwrap();
    let kind = BasicType::Int { width: 16 };
    assert_eq!(slot.pointee, kind);
    let shape = Shape { value_type: ValueType::I16, kind: Some(kind), constant: false };
    assert_eq!(codegen.check_expr(&identifier("n")), Ok(shape));
    assert_eq!(loaded(&mut codegen, "n"), "%n = load i16, i16* @g, align 2");
    assert!(codegen.enter_function("main".to_string(), "more"));
    assert_eq!(loaded(&mut codegen, "n"), "%n1 = load i16, i16* @g, align 2");
}

#[test]
fn local_shadows_a_global() {
    let context = Context::create();
    let module = two_functions(&context);
    let global = short(&context, &module, "g");
    let local = module.add_global(context.f32_type(), None, "l").as_pointer_value();
    let mut codegen = CodeGen::new(module);
    assert!(codegen.enter_function("main".to_string(), "entry"));
    let function = Some("main".to_string());
    codegen.declare_variable(function, "n".to_string(), ValueType::F32, local).unwrap();
    codegen.declare_variable(None, "n".to_string(), ValueType::I16, global).unwrap();
    assert_eq!(loaded(&mut codegen, "n"), "%n = load float, float* @l, align 4");
    codegen.leave_function();
    assert_eq!(loaded(&mut codegen, "n"), "%n1 = load i16, i16* @g, align 2");
    assert!(codegen.enter_function("other".to_string(), "entry"));
    assert_eq!(loaded(&mut codegen, "n"), "%n = load i16, i16* @g, align 2");
}

#[test]
fn local_is_unseen_elsewhere() {
    let context = Context::create();
    let module = two_functions(&context);
    let local = module.add_global(context.i8_type(), None, "l").as_pointer_value();
    let mut codegen = at_top_level(module);
    let function = Some("main".to_string());
    codegen.declare_variable(function, "n".to_string(), ValueType::I8, local).unwrap();
    assert_eq!(codegen.check_expr(&identifier("n")), Err(Obstacle::Refused));
    assert!(codegen.enter_function("other".to_string(), "entry"));
    assert_eq!(codegen.check_expr(&identifier("n")), Err(Obstacle::Refused));
    assert!(codegen.enter_function("main".to_string(), "more"));
    assert_eq!(loaded(&mut codegen, "n"), "%n = load i8, i8* @l, align 1");
}

#[test]
fn later_declaration_replaces_an_earlier_one() {
    let context = Context::create();
    let module = two_functions(&context);
    let one = short(&context, &module, "one");
    let two = short(&context, &module, "two");
    let mut codegen = at_top_level(module);
    codegen.declare_variable(None, "n".to_string(), ValueType::I16, one).unwrap();
    codegen.declare_variable(None, "n".to_string(), ValueType::I16, two).unwrap();
    assert_eq!(loaded(&mut codegen, "n"), "%n = load i16, i16* @two, align 2");
}

#[test]
fn unknown_name_is_a_name_error() {
    let context = Context::create();
    let mut codegen = at_top_level(two_functions(&context));
    for entered in [false, true] {
        if entered {
            assert!(codegen.enter_function("main".to_string(), "more"));
        }
        let expr = identifier("missing");
        assert_eq!(codegen.check_expr(&expr), Err(Obstacle::Refused));
        let error = codegen.emit_expr(&expr).unwrap_err();
        assert_eq!(error.error, LLVMCompileErrorType::NameError);
        assert_eq!(error.location, Location { row: 3, column: 4 });
        match error.message {
            Message::Text(text) => assert_eq!(text, "missing"),
            _ => panic!("the message is no text"),
        }
    }
}

#[test]
fn variable_needs_a_block_and_a_place_of_its_type() {
    let context = Context::create();
    let module = two_functions(&context);
    let number = short(&context, &module, "g");
    let mut codegen = CodeGen::new(module);
    codegen.declare_variable(None, "n".to_string(), ValueType::I16, number).unwrap();
    codegen.declare_variable(None, "f".to_string(), ValueType::F32, number).unwrap();
    codegen.declare_variable(None, "v".to_string(), ValueType::Void, number).unwrap();
    assert_eq!(codegen.check_expr(&identifier("n")), Err(Obstacle::Unsupported));
    assert!(codegen.try_emit_expr(&identifier("n")).is_none());
    assert!(codegen.enter_function("main".to_string(), "entry"));
    assert!(codegen.check_expr(&identifier("n")).is_ok());
    assert_eq!(codegen.check_expr(&identifier("f")), Err(Obstacle::Unsupported));
    assert_eq!(codegen.check_expr(&identifier("v")), Err(Obstacle::Unsupported));
}

#[test]
fn only_functions_of_the_module_are_entered() {
    let context = Context::create();
    let module = two_functions(&context);
    let main = module.get_function("main").unwrap();
    let number = short(&context, &module, "g");
    let mut codegen = CodeGen::new(module);
    codegen.declare_variable(None, "n".to_string(), ValueType::I16, number).unwrap();
    assert!(!codegen.enter_function("missing".to_string(), "entry"));
    assert_eq!(codegen.check_expr(&identifier("n")), Err(Obstacle::Unsupported));
    assert_eq!(main.count_basic_blocks(), 0);
    assert!(codegen.enter_function("main".to_string(), "entry"));
    assert_eq!(main.count_basic_blocks(), 1);
    assert!(codegen.enter_function("main".to_string(), "more"));
    assert_eq!(main.count_basic_blocks(), 2);
    let name = main.get_last_basic_block().unwrap().get_name().to_str().unwrap().to_string();
    assert_eq!(name, "more");
    codegen.emit_expr(&identifier("n")).unwrap();
    assert!(main.get_last_basic_block().unwrap().get_first_instruction().is_some());
    assert!(main.get_first_basic_block().unwrap().get_first_instruction().is_none());
}

#[test]
fn arrays_and_strings_are_loaded_too() {
    let context = Context::create();
    let module = two_functions(&context);
    let array = context.i16_type().array_type(2);
    let array = module.add_global(array, None, "array").as_pointer_value();
    let text = context.i8_type().ptr_type(AddressSpace::default());
    let text = module.add_global(text, None, "text").as_pointer_value();
    let mut codegen = at_top_level(module);
    codegen.declare_variable(None, "a".to_string(), ValueType::Array, array).unwrap();
    codegen.declare_variable(None, "s".to_string(), ValueType::Str, text).unwrap();
    assert_eq!(loaded(&mut codegen, "a"), "%a = load [2 x i16], [2 x i16]* @array, align 2");
    assert_eq!(loaded(&mut codegen, "s"), "%s = load i8*, i8** @text, align 8");
}

#[test]
fn function_is_no_place_for_a_variable() {
    let context = Context::create();
    let module = two_functions(&context);
    let array = context.i8_type().array_type(4).fn_type(&[], false);
    let vector = context.i32_type().vec_type(4).fn_type(&[], false);
    module.add_function("array", array, None);
    module.add_function("vector", vector, None);
    let names = ["main", "array", "vector"];
    let pointers: Vec<PointerValue<'_>> = names
        .iter()
        .map(|name| module.get_function(name).unwrap().as_global_value().as_pointer_value())
        .collect();
    let mut codegen = at_top_level(module);
    for pointer in pointers {
        let name = "n".to_string();
        let slot = codegen.declare_variable(None, name, ValueType::Array, pointer).unwrap();
        assert_eq!(slot.pointee, BasicType::Unknown);
        assert_eq!(codegen.check_expr(&identifier("n")), Err(Obstacle::Unsupported));
        assert!(codegen.try_emit_expr(&identifier("n")).is_none());
    }
}

#[test]
fn place_tells_what_it_holds() {
    let context = Context::create();
    let mut codegen = at_top_level(two_functions(&context));
    let byte = context.i8_type();
    let zero = AddressSpace::default();
    let mut place = |at| {
        codegen.declare_variable(None, "n".to_string(), ValueType::I8, at).unwrap()
    };
    let null = byte.ptr_type(zero).const_null();
    assert_eq!(place(null).pointee, BasicType::Int { width: 8 });
    assert_eq!(place(null).pointer.target, Target::Int { width: 8 });
    let elsewhere = byte.ptr_type(AddressSpace::from(1)).const_null();
    assert_eq!(place(elsewhere).pointee, BasicType::Int { width: 8 });
    assert_eq!(place(elsewhere).pointer.target, Target::Unlisted);
    let double = context.f64_type().ptr_type(zero).const_null();
    assert_eq!(place(double).pointee, BasicType::Float { precision: Precision::Double });
    let opaque = context.opaque_struct_type("opaque");
    assert_eq!(place(opaque.ptr_type(zero).const_null()).pointee, BasicType::Struct);
    let unsized_array = opaque.array_type(2).ptr_type(zero).const_null();
    assert_eq!(place(unsized_array).pointee, BasicType::Array { sized: false });
    let array = byte.array_type(2).ptr_type(zero).const_null();
    assert_eq!(place(array).pointee, BasicType::Array { sized: true });
    let vector = byte.vec_type(4).ptr_type(zero).const_null();
    assert_eq!(place(vector).pointee, BasicType::Vector);
    let pointer = byte.ptr_type(zero).ptr_type(zero).const_null();
    let target = Target::Int { width: 8 };
    assert_eq!(place(pointer).pointee, BasicType::Pointer { target });
    // Pointers to what is no number are numbered by their types.
    let listed = |number: usize| BasicType::Pointer { target: Target::Listed { number } };
    let odd = byte.ptr_type(AddressSpace::from(1)).ptr_type(zero).const_null();
    assert_eq!(place(odd).pointee, listed(0));
    let one = opaque.ptr_type(zero).ptr_type(zero).const_null();
    let two = byte.ptr_type(zero).ptr_type(zero).ptr_type(zero).const_null();
    assert_eq!(place(one).pointee, listed(1));
    assert_eq!(place(two).pointee, listed(2));
    assert_eq!(place(one).pointee, listed(1));
    assert_eq!(place(odd).pointee, listed(0));
}

#[test]
fn pointer_of_another_context_is_not_taken_up() {
    let context = Context::create();
    let other = Context::create();
    let pointer = other.i8_type().ptr_type(AddressSpace::default()).const_null();
    let mut codegen = at_top_level(two_functions(&context));
    let slot = codegen.declare_variable(None, "n".to_string(), ValueType::I8, pointer);
    assert!(slot.is_none());
    assert_eq!(codegen.check_expr(&identifier("n")), Err(Obstacle::Refused));
}

#[test]
fn array_of_unknown_size_is_not_loaded() {
    let context = Context::create();
    let mut codegen = at_top_level(two_functions(&context));
    let array = context.opaque_struct_type("opaque").array_type(2);
    let pointer = array.ptr_type(AddressSpace::default()).const_null();
    codegen.declare_variable(None, "a".to_string(), ValueType::Array, pointer).unwrap();
    assert_eq!(codegen.check_expr(&identifier("a")), Err(Obstacle::Unsupported));
}

#[test]
fn block_without_a_function_is_no_place_for_code() {
    let context = Context::create();
    let module = two_functions(&context);
    let main = module.get_function("main").unwrap();
    let global = short(&context, &module, "g");
    let mut codegen = at_top_level(module);
    codegen.declare_variable(None, "n".to_string(), ValueType::I16, global).unwrap();
    main.get_last_basic_block().unwrap().remove_from_function().unwrap();
    assert_eq!(codegen.check_expr(&identifier("n")), Err(Obstacle::Unsupported));
    assert!(codegen.try_emit_expr(&identifier("n")).is_none());
}

#[test]
fn variables_are_found_by_function_and_name() {
    let context = Context::create();
    let module = two_functions(&context);
    let pointer = short(&context, &module, "g");
    let mut codegen = at_top_level(module);
    let slot = codegen.declare_variable(None, "n".to_string(), ValueType::I16, pointer).unwrap();
    let variable = Variable { value_type: ValueType::I16, slot };
    let mut variables = Variables::new();
    let main = Some("main".to_string());
    assert_eq!(variables.load(&main, &"n".to_string()), None);
    variables.declare(main.clone(), "n".to_string(), variable);
    assert_eq!(variables.load(&main, &"n".to_string()), Some(variable));
    assert_eq!(variables.load(&main, &"m".to_string()), None);
    assert_eq!(variables.load(&None, &"n".to_string()), None);
    assert_eq!(variables.load(&Some("other".to_string()), &"n".to_string()), None);
}

#[test]
fn names_are_mangled_by_type() {
    let names = MangledNames {
        for_void: "f_v".to_string(),
        for_bool: "f_b".to_string(),
        for_i8: "f_c".to_string(),
        for_i16: "f_s".to_string(),
        for_f32: "f_f".to_string(),
        for_str: "f_t".to_string(),
        for_array: "f_a".to_string(),
    };
    let mut mangler = Mangler::new();
    let f = "f".to_string();
    assert_eq!(mangler.get_mangled_name(&f, ValueType::I8), None);
    mangler.declare(f.clone(), names);
    let expected = vec![
        (ValueType::Void, "f_v"),
        (ValueType::Bool, "f_b"),
        (ValueType::I8, "f_c"),
        (ValueType::I16, "f_s"),
        (ValueType::F32, "f_f"),
        (ValueType::Str, "f_t"),
        (ValueType::Array, "f_a"),
    ];
    for (value_type, symbol) in expected {
        assert_eq!(mangler.get_mangled_name(&f, value_type), Some(&symbol.to_string()));
    }
    assert_eq!(mangler.get_mangled_name(&"g".to_string(), ValueType::I8), None);
}
