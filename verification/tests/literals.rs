use inkwell::context::Context;
use inkwell::values::AnyValue;
use python_codegen::ast::{
    Expression, ExpressionType, Location, Number, StringGroup, UnaryOperator,
};
use python_codegen::codegen::CodeGen;
use python_codegen::error::{LLVMCompileErrorType, Message};
use python_codegen::integer::Integer;
use python_codegen::typing::Obstacle;
use python_codegen::value::{BasicType, Precision, Shape, Target, Value, ValueType};

const SINGLE: BasicType = BasicType::Float { precision: Precision::Single };

fn generator(context: &Context) -> CodeGen<'_> {
    let module = context.create_module("literals");
    module.add_function("main", context.void_type().fn_type(&[], false), None);
    let mut codegen = CodeGen::new(module);
    assert!(codegen.enter_function("main".to_string(), "entry"));
    codegen
}

fn expression(row: usize, column: usize, node: ExpressionType) -> Expression {
    Expression { location: Location { row, column }, node }
}

fn integer(negative: bool, digits: Vec<u64>) -> ExpressionType {
    ExpressionType::Number { value: Number::Integer { value: Integer { negative, digits } } }
}

fn float(value: f64) -> ExpressionType {
    ExpressionType::Number { value: Number::Float { bits: value.to_bits() } }
}

fn unary(op: UnaryOperator, node: ExpressionType) -> ExpressionType {
    ExpressionType::Unop { op, a: Box::new(expression(9, 9, node)) }
}

fn constant(text: &str) -> StringGroup {
    StringGroup::Constant { value: text.to_string() }
}

fn list(nodes: Vec<ExpressionType>) -> ExpressionType {
    let elements = nodes.into_iter().map(|node| expression(3, 3, node)).collect();
    ExpressionType::List { elements }
}

/// What LLVM prints for the value of `node`.
fn printed(node: ExpressionType) -> String {
    let context = Context::create();
    let mut codegen = generator(&context);
    let expr = expression(1, 1, node);
    let value = codegen.emit_expr(&expr).unwrap();
    codegen.llvm_value(value).unwrap().print_to_string().to_string()
}

/// The text of the error that `node` gives.
fn refused(node: ExpressionType) -> String {
    let context = Context::create();
    let mut codegen = generator(&context);
    let expr = expression(4, 2, node);
    assert_eq!(codegen.check_expr(&expr), Err(Obstacle::Refused));
    let error = codegen.emit_expr(&expr).unwrap_err();
    assert_eq!(error.error, LLVMCompileErrorType::NotImplemented);
    assert_eq!(error.location, Location { row: 4, column: 2 });
    match error.message {
        Message::Text(text) => text,
        _ => panic!("the message is no text"),
    }
}

fn unsupported(node: ExpressionType) {
    let context = Context::create();
    let mut codegen = generator(&context);
    let expr = expression(1, 1, node);
    assert_eq!(codegen.check_expr(&expr), Err(Obstacle::Unsupported));
    assert!(codegen.try_emit_expr(&expr).is_none());
}

#[test]
fn integer_literal_is_a_constant_of_16_bits() {
    let context = Context::create();
    let mut codegen = generator(&context);
    let expr = expression(1, 1, integer(false, vec![5]));
    let shape = Shape { value_type: ValueType::I16, kind: Some(BasicType::Int { width: 16 }), constant: true };
    assert_eq!(codegen.check_expr(&expr), Ok(shape));
    let value = codegen.emit_expr(&expr).unwrap();
    assert_eq!(value.get_type(), ValueType::I16);
    match value {
        Value::I16 { value } => {
            assert_eq!(value.width, 16);
            assert!(value.constant);
        }
        _ => panic!("the value is not of type I16"),
    }
    let made = codegen.llvm_value(value).unwrap().into_int_value();
    assert_eq!(made, context.i16_type().const_int(5, true));
}

#[test]
fn integer_literal_keeps_16_bits() {
    assert_eq!(printed(integer(false, vec![])), "i16 0");
    assert_eq!(printed(integer(false, vec![32767])), "i16 32767");
    assert_eq!(printed(integer(false, vec![32768])), "i16 -32768");
    assert_eq!(printed(integer(false, vec![65536 + 7])), "i16 7");
    assert_eq!(printed(integer(false, vec![3, 1])), "i16 3");
    assert_eq!(printed(integer(false, vec![u64::MAX, 1])), "i16 -1");
    assert_eq!(printed(integer(true, vec![2])), "i16 -2");
}

#[test]
fn minus_sign_becomes_part_of_an_integer() {
    let negated = |digits: Vec<u64>| unary(UnaryOperator::Neg, integer(false, digits));
    assert_eq!(printed(negated(vec![5])), "i16 -5");
    assert_eq!(printed(negated(vec![32768])), "i16 -32768");
    assert_eq!(printed(negated(vec![32769])), "i16 32767");
    assert_eq!(printed(negated(vec![0])), "i16 0");
    assert_eq!(printed(negated(vec![0, 1])), "i16 0");
    assert_eq!(printed(unary(UnaryOperator::Neg, integer(true, vec![9]))), "i16 9");
}

#[test]
fn float_literal_is_the_nearest_single_precision_constant() {
    let doubles: Vec<f64> = vec![
        0.0,
        -0.0,
        1.0,
        0.1,
        1.1,
        -2.75,
        1e-40,
        1e300,
        -1e300,
        16777217.0,
        f64::INFINITY,
        f64::NAN,
        f64::MIN_POSITIVE,
        3.4028235677973366e38,
    ];
    for double in doubles {
        let context = Context::create();
        let mut codegen = generator(&context);
        let expr = expression(1, 1, float(double));
        let shape = Shape { value_type: ValueType::F32, kind: Some(SINGLE), constant: true };
        assert_eq!(codegen.check_expr(&expr), Ok(shape));
        let value = codegen.emit_expr(&expr).unwrap();
        assert_eq!(value.get_type(), ValueType::F32);
        let made = codegen.llvm_value(value).unwrap().into_float_value();
        assert_eq!(made, context.f32_type().const_float(double));
    }
}

#[test]
fn minus_sign_becomes_part_of_a_float() {
    for double in vec![0.0, -0.0, 1.5, -0.1, 1e300, f64::INFINITY] {
        let context = Context::create();
        let mut codegen = generator(&context);
        let expr = expression(1, 1, unary(UnaryOperator::Neg, float(double)));
        let value = codegen.emit_expr(&expr).unwrap();
        let made = codegen.llvm_value(value).unwrap().into_float_value();
        assert_eq!(made, context.f32_type().const_float(-double));
    }
}

#[test]
fn complex_literal_is_refused() {
    let complex = || ExpressionType::Number {
        value: Number::Complex { real_bits: 0, imag_bits: 1.0f64.to_bits() },
    };
    assert_eq!(refused(complex()), "Imaginary numbers are not supported.");
    assert_eq!(
        refused(unary(UnaryOperator::Neg, complex())),
        "Complex numbers are not implemented."
    );
    assert_eq!(
        refused(unary(UnaryOperator::Not, complex())),
        "Complex numbers are not implemented."
    );
}

#[test]
fn other_unary_operators_are_refused() {
    let one = || integer(false, vec![1]);
    assert_eq!(refused(unary(UnaryOperator::Pos, one())), "Unimplemented unop Pos for integer");
    assert_eq!(refused(unary(UnaryOperator::Not, one())), "Unimplemented unop Not for integer");
    assert_eq!(refused(unary(UnaryOperator::Inv, one())), "Unimplemented unop Inv for integer");
    assert_eq!(
        refused(unary(UnaryOperator::Pos, float(1.0))),
        "Unimplemented unop Pos for floating number"
    );
    assert_eq!(
        refused(unary(UnaryOperator::Inv, float(1.0))),
        "Unimplemented unop Inv for floating number"
    );
}

#[test]
fn unary_operator_before_anything_else_is_refused() {
    let context = Context::create();
    let mut codegen = generator(&context);
    let expr = expression(2, 8, unary(UnaryOperator::Neg, ExpressionType::True));
    assert_eq!(codegen.check_expr(&expr), Err(Obstacle::Refused));
    let error = codegen.emit_expr(&expr).unwrap_err();
    assert_eq!(error.location, Location { row: 2, column: 8 });
    assert_eq!(error.error, LLVMCompileErrorType::NotImplemented);
    assert!(matches!(error.message, Message::UnaryOperand(ExpressionType::True)));
}

#[test]
fn booleans_are_constants_of_one_bit() {
    assert_eq!(printed(ExpressionType::True), "i1 true");
    assert_eq!(printed(ExpressionType::False), "i1 false");
    let context = Context::create();
    let mut codegen = generator(&context);
    let expr = expression(1, 1, ExpressionType::True);
    let shape = Shape { value_type: ValueType::Bool, kind: Some(BasicType::Int { width: 1 }), constant: true };
    assert_eq!(codegen.check_expr(&expr), Ok(shape));
    assert_eq!(codegen.emit_expr(&expr).unwrap().get_type(), ValueType::Bool);
}

#[test]
fn none_is_void() {
    let context = Context::create();
    let mut codegen = generator(&context);
    let expr = expression(1, 1, ExpressionType::NoneConstant);
    let value = codegen.emit_expr(&expr).unwrap();
    assert_eq!(value, Value::Void);
    assert!(codegen.llvm_value(value).is_none());
}

#[test]
fn other_expressions_are_refused() {
    let context = Context::create();
    let mut codegen = generator(&context);
    let expr = expression(7, 3, ExpressionType::Other { text: "Ellipsis".to_string() });
    let error = codegen.emit_expr(&expr).unwrap_err();
    assert_eq!(error.location, Location { row: 7, column: 3 });
    assert_eq!(error.error, LLVMCompileErrorType::NotImplemented);
    match error.message {
        Message::Expression(named) => assert!(std::ptr::eq(named, &expr)),
        _ => panic!("the message names no expression"),
    }
}

#[test]
fn string_literal_becomes_a_global() {
    let context = Context::create();
    let mut codegen = generator(&context);
    let value = ExpressionType::String { value: constant("hello") };
    let expr = expression(1, 1, value);
    let value = codegen.emit_expr(&expr).unwrap();
    assert_eq!(value.get_type(), ValueType::Str);
    assert!(codegen.llvm_value(value).unwrap().is_pointer_value());
    let code = codegen.into_module().print_to_string().to_string();
    assert!(code.contains("@.str = private unnamed_addr constant [6 x i8] c\"hello\\00\""));
}

#[test]
fn string_literal_ends_at_a_nul() {
    let context = Context::create();
    let mut codegen = generator(&context);
    let value = ExpressionType::String { value: constant("ab\0cd") };
    let expr = expression(1, 1, value);
    codegen.emit_expr(&expr).unwrap();
    let code = codegen.into_module().print_to_string().to_string();
    assert!(code.contains("constant [3 x i8] c\"ab\\00\""));
}

#[test]
fn string_literal_is_a_pointer_to_bytes() {
    let context = Context::create();
    let codegen = generator(&context);
    let expr = expression(1, 1, ExpressionType::String { value: constant("x") });
    let kind = Some(BasicType::Pointer { target: Target::Int { width: 8 } });
    let shape = Shape { value_type: ValueType::Str, kind, constant: false };
    assert_eq!(codegen.check_expr(&expr), Ok(shape));
}

#[test]
fn string_literals_in_a_row_are_one() {
    let context = Context::create();
    let mut codegen = generator(&context);
    let inner = StringGroup::Joined { values: vec![constant("b"), constant("")] };
    let values = vec![constant("a"), inner, constant("cd")];
    let expr = expression(1, 1, ExpressionType::String { value: StringGroup::Joined { values } });
    codegen.emit_expr(&expr).unwrap();
    let code = codegen.into_module().print_to_string().to_string();
    assert!(code.contains("constant [5 x i8] c\"abcd\\00\""));
}

#[test]
fn string_literal_at_the_top_level_is_refused() {
    let context = Context::create();
    let mut codegen = generator(&context);
    codegen.leave_function();
    let expr = expression(5, 6, ExpressionType::String { value: constant("x") });
    assert_eq!(codegen.check_expr(&expr), Err(Obstacle::Refused));
    let error = codegen.emit_expr(&expr).unwrap_err();
    assert_eq!(error.location, Location { row: 5, column: 6 });
    assert_eq!(error.error, LLVMCompileErrorType::NotImplemented);
    match error.message {
        Message::Text(text) => {
            assert_eq!(text, "String expression in global scope is not implemented.");
        }
        _ => panic!("the message is no text"),
    }
}

#[test]
fn string_literal_needs_a_block_and_no_formatted_parts() {
    let formatted = StringGroup::FormattedValue {
        value: Box::new(expression(1, 2, ExpressionType::True)),
    };
    let values = vec![constant("a"), formatted, constant("b")];
    unsupported(ExpressionType::String { value: StringGroup::Joined { values } });
    let context = Context::create();
    let module = context.create_module("detached");
    let main = module.add_function("main", context.void_type().fn_type(&[], false), None);
    let mut codegen = CodeGen::new(module);
    assert!(codegen.enter_function("main".to_string(), "entry"));
    main.get_last_basic_block().unwrap().remove_from_function().unwrap();
    let expr = expression(1, 1, ExpressionType::String { value: constant("x") });
    assert_eq!(codegen.check_expr(&expr), Err(Obstacle::Unsupported));
    assert!(codegen.try_emit_expr(&expr).is_none());
}

#[test]
fn list_of_constants_is_a_constant_array() {
    let numbers = vec![integer(false, vec![1]), integer(true, vec![2]), integer(false, vec![3])];
    assert_eq!(printed(list(numbers)), "[3 x i16] [i16 1, i16 -2, i16 3]");
    let truths = vec![ExpressionType::True, ExpressionType::False];
    assert_eq!(printed(list(truths)), "[2 x i1] [i1 true, i1 false]");
    let context = Context::create();
    let mut codegen = generator(&context);
    let expr = expression(1, 1, list(vec![integer(false, vec![4])]));
    let shape = Shape { value_type: ValueType::Array, kind: Some(BasicType::Array { sized: true }), constant: false };
    assert_eq!(codegen.check_expr(&expr), Ok(shape));
    assert_eq!(codegen.emit_expr(&expr).unwrap().get_type(), ValueType::Array);
}

#[test]
fn tuple_is_lowered_as_a_list() {
    let elements = || vec![
        expression(1, 2, integer(false, vec![8])),
        expression(1, 5, integer(false, vec![9])),
    ];
    let tuple = printed(ExpressionType::Tuple { elements: elements() });
    assert_eq!(tuple, "[2 x i16] [i16 8, i16 9]");
    assert_eq!(tuple, printed(ExpressionType::List { elements: elements() }));
}

#[test]
fn list_that_makes_no_array_is_unsupported() {
    unsupported(list(vec![]));
    unsupported(list(vec![float(1.0)]));
    unsupported(list(vec![ExpressionType::NoneConstant]));
    unsupported(list(vec![ExpressionType::True, integer(false, vec![1])]));
    unsupported(list(vec![list(vec![integer(false, vec![1])])]));
    // What comes after an unsupported element is not looked at.
    let complex = ExpressionType::Number { value: Number::Complex { real_bits: 0, imag_bits: 0 } };
    unsupported(list(vec![ExpressionType::NoneConstant, complex]));
}

#[test]
fn error_in_a_list_is_reported_where_it_is() {
    let context = Context::create();
    let mut codegen = generator(&context);
    let complex = ExpressionType::Number { value: Number::Complex { real_bits: 0, imag_bits: 0 } };
    let elements = vec![
        expression(6, 2, integer(false, vec![1])),
        expression(6, 4, complex),
        expression(6, 6, ExpressionType::NoneConstant),
    ];
    let expr = expression(6, 1, ExpressionType::List { elements });
    assert_eq!(codegen.check_expr(&expr), Err(Obstacle::Refused));
    let error = codegen.emit_expr(&expr).unwrap_err();
    assert_eq!(error.location, Location { row: 6, column: 4 });
}

#[test]
fn types_stand_for_values() {
    assert!(BasicType::Int { width: 1 }.stands_for(ValueType::Bool));
    let pointer = BasicType::Pointer { target: Target::Unlisted };
    assert!(pointer.stands_for(ValueType::Str));
    assert!(!pointer.stands_for(ValueType::F32));
    assert!(!pointer.is_definite());
    assert!(SINGLE.is_definite());
    assert!(!BasicType::Array { sized: false }.stands_for(ValueType::Array));
    assert!(!BasicType::Struct.stands_for(ValueType::Void));
}
