use inkwell::context::Context;
use inkwell::values::{AnyValue, PointerValue};
use python_codegen::ast::{
    BooleanOperator, Comparison, Expression, ExpressionType, Location, Number, Operator,
};
use python_codegen::codegen::CodeGen;
use python_codegen::error::{LLVMCompileErrorType, Message};
use python_codegen::integer::Integer;
use python_codegen::typing::Obstacle;
use python_codegen::value::{BasicType, Precision, Shape, Value, ValueType};

const SINGLE: BasicType = BasicType::Float { precision: Precision::Single };

/// A generator in a function that has the variables `x` and `y` of 16 bits, `b` of 8 bits, the
/// floating point variables `f` and `g`, the double `d`, the boolean `t` and the string `s`.
fn with_variables(context: &Context) -> CodeGen<'_> {
    let module = context.create_module("operators");
    let builder = context.create_builder();
    let main = module.add_function("main", context.void_type().fn_type(&[], false), None);
    builder.position_at_end(context.append_basic_block(main, "entry"));
    let text = context.i8_type().ptr_type(inkwell::AddressSpace::default());
    let places: Vec<(&str, ValueType, PointerValue<'_>)> = vec![
        ("x", ValueType::I16, builder.build_alloca(context.i16_type(), "xp")),
        ("y", ValueType::I16, builder.build_alloca(context.i16_type(), "yp")),
        ("b", ValueType::I8, builder.build_alloca(context.i8_type(), "bp")),
        ("f", ValueType::F32, builder.build_alloca(context.f32_type(), "fp")),
        ("g", ValueType::F32, builder.build_alloca(context.f32_type(), "gp")),
        ("d", ValueType::F32, builder.build_alloca(context.f64_type(), "dp")),
        ("t", ValueType::Bool, builder.build_alloca(context.bool_type(), "tp")),
        ("s", ValueType::Str, builder.build_alloca(text, "sp")),
    ];
    let mut codegen = CodeGen::new(module);
    assert!(codegen.enter_function("main".to_string(), "body"));
    for (name, value_type, place) in places {
        let function = Some("main".to_string());
        codegen.declare_variable(function, name.to_string(), value_type, place).unwrap();
    }
    codegen
}

fn node(column: usize, node: ExpressionType) -> Expression {
    Expression { location: Location { row: 1, column }, node }
}

fn number(n: i64) -> Expression {
    let value = Integer { negative: n < 0, digits: vec![n.unsigned_abs()] };
    node(1, ExpressionType::Number { value: Number::Integer { value } })
}

fn decimal(value: f64) -> Expression {
    node(1, ExpressionType::Number { value: Number::Float { bits: value.to_bits() } })
}

fn name(text: &str) -> Expression {
    node(1, ExpressionType::Identifier { name: text.to_string() })
}

fn complex() -> ExpressionType {
    ExpressionType::Number { value: Number::Complex { real_bits: 0, imag_bits: 0 } }
}

fn binop(a: Expression, op: Operator, b: Expression) -> Expression {
    node(5, ExpressionType::Binop { a: Box::new(a), op, b: Box::new(b) })
}

fn compare(a: Expression, op: Comparison, b: Expression) -> Expression {
    node(5, ExpressionType::Compare { vals: vec![a, b], ops: vec![op] })
}

/// The value of `expr` as LLVM prints it, with its type.
fn emitted(expr: Expression) -> (ValueType, String) {
    let context = Context::create();
    let mut codegen = with_variables(&context);
    let shape = codegen.check_expr(&expr).unwrap();
    let value = codegen.emit_expr(&expr).unwrap();
    assert_eq!(shape.value_type, value.get_type());
    let printed = codegen.llvm_value(value).unwrap().print_to_string().to_string();
    (value.get_type(), printed.trim().to_string())
}

/// The instructions of `expr`, as LLVM prints them.
fn instructions(expr: Expression) -> Vec<String> {
    let context = Context::create();
    let mut codegen = with_variables(&context);
    codegen.emit_expr(&expr).unwrap();
    let code = codegen.into_module().print_to_string().to_string();
    let lines = code.lines().map(|line| line.trim().to_string());
    lines.filter(|line| line.starts_with('%') && !line.contains("alloca")).collect()
}

/// The code before any is generated.
fn untouched(context: &Context) -> String {
    with_variables(context).into_module().print_to_string().to_string()
}

fn no_code(expr: Expression) {
    let context = Context::create();
    let before = untouched(&context);
    let mut codegen = with_variables(&context);
    assert_eq!(codegen.check_expr(&expr), Err(Obstacle::Unsupported));
    assert!(codegen.try_emit_expr(&expr).is_none());
    assert_eq!(before, codegen.into_module().print_to_string().to_string());
}

fn short(text: &str) -> (ValueType, String) {
    (ValueType::I16, text.to_string())
}

fn single(text: &str) -> (ValueType, String) {
    (ValueType::F32, text.to_string())
}

fn truth(text: &str) -> (ValueType, String) {
    (ValueType::Bool, text.to_string())
}

#[test]
fn operators_on_constant_integers_fold() {
    assert_eq!(emitted(binop(number(7), Operator::Add, number(5))), short("i16 12"));
    assert_eq!(emitted(binop(number(7), Operator::Sub, number(5))), short("i16 2"));
    assert_eq!(emitted(binop(number(5), Operator::Sub, number(7))), short("i16 -2"));
    assert_eq!(emitted(binop(number(7), Operator::Mult, number(5))), short("i16 35"));
    assert_eq!(emitted(binop(number(7), Operator::FloorDiv, number(2))), short("i16 3"));
    assert_eq!(emitted(binop(number(-7), Operator::FloorDiv, number(2))), short("i16 -3"));
    assert_eq!(emitted(binop(number(7), Operator::Mod, number(4))), short("i16 3"));
    assert_eq!(emitted(binop(number(-7), Operator::Mod, number(4))), short("i16 -3"));
    assert_eq!(emitted(binop(number(32767), Operator::Add, number(1))), short("i16 -32768"));
}

#[test]
fn nested_operators_compute_the_value_of_the_expression() {
    // ((2 + 3) * 4 - 6) // 5 % 3
    let sum = binop(number(2), Operator::Add, number(3));
    let product = binop(sum, Operator::Mult, number(4));
    let difference = binop(product, Operator::Sub, number(6));
    let quotient = binop(difference, Operator::FloorDiv, number(5));
    assert_eq!(emitted(binop(quotient, Operator::Mod, number(3))), short("i16 2"));
    // (1 - 2) / (3 + 5) + 0.5 < 1.0
    let difference = binop(number(1), Operator::Sub, number(2));
    let sum = binop(number(3), Operator::Add, number(5));
    let quotient = binop(difference, Operator::Div, sum);
    let total = binop(quotient, Operator::Add, decimal(0.5));
    assert_eq!(emitted(compare(total, Comparison::Less, decimal(1.0))), truth("i1 true"));
}

#[test]
fn operators_on_integer_variables_are_instructions() {
    let with = |op: Operator| emitted(binop(name("x"), op, number(5))).1;
    assert_eq!(with(Operator::Add), "%add = add i16 %x, 5");
    assert_eq!(with(Operator::Sub), "%sub = sub i16 %x, 5");
    assert_eq!(with(Operator::Mult), "%mul = mul i16 %x, 5");
    assert_eq!(with(Operator::FloorDiv), "%fld = sdiv i16 %x, 5");
    assert_eq!(with(Operator::Mod), "%mod = srem i16 %x, 5");
    assert_eq!(emitted(binop(number(5), Operator::Sub, name("x"))).1, "%sub = sub i16 5, %x");
}

#[test]
fn operands_are_evaluated_from_left_to_right() {
    let inner = binop(name("y"), Operator::Mult, name("x"));
    let code = instructions(binop(name("x"), Operator::Sub, inner));
    assert_eq!(
        code,
        vec![
            "%x = load i16, i16* %xp, align 2",
            "%y = load i16, i16* %yp, align 2",
            "%x1 = load i16, i16* %xp, align 2",
            "%mul = mul i16 %y, %x1",
            "%sub = sub i16 %x, %mul",
        ]
    );
}

#[test]
fn division_of_integers_gives_a_float() {
    let (value_type, printed) = emitted(binop(number(7), Operator::Div, number(2)));
    assert_eq!(value_type, ValueType::F32);
    assert_eq!(printed, "float 3.500000e+00");
    assert_eq!(emitted(binop(number(-1), Operator::Div, number(4))), single("float -2.500000e-01"));
    let sum = binop(number(3), Operator::Add, number(3));
    assert_eq!(emitted(binop(sum, Operator::Div, number(2))), single("float 3.000000e+00"));
}

#[test]
fn division_of_integer_variables_gives_a_float() {
    assert_eq!(
        instructions(binop(name("x"), Operator::Div, number(2))),
        vec![
            "%x = load i16, i16* %xp, align 2",
            "%sitofp = sitofp i16 %x to float",
            "%div = fdiv float %sitofp, 2.000000e+00",
        ]
    );
    assert_eq!(
        instructions(binop(name("b"), Operator::Div, name("x"))),
        vec![
            "%b = load i8, i8* %bp, align 1",
            "%x = load i16, i16* %xp, align 2",
            "%sitofp = sitofp i8 %b to float",
            "%sitofp1 = sitofp i16 %x to float",
            "%div = fdiv float %sitofp, %sitofp1",
        ]
    );
    let context = Context::create();
    let codegen = with_variables(&context);
    let shape = Shape { value_type: ValueType::F32, kind: Some(SINGLE), constant: false };
    assert_eq!(codegen.check_expr(&binop(number(2), Operator::Div, name("x"))), Ok(shape));
}

#[test]
fn integer_beside_a_float_is_converted() {
    assert_eq!(
        instructions(binop(name("x"), Operator::Add, name("f"))),
        vec![
            "%x = load i16, i16* %xp, align 2",
            "%f = load float, float* %fp, align 4",
            "%sitofp = sitofp i16 %x to float",
            "%add = fadd float %sitofp, %f",
        ]
    );
    assert_eq!(
        instructions(binop(name("f"), Operator::Sub, name("x"))),
        vec![
            "%f = load float, float* %fp, align 4",
            "%x = load i16, i16* %xp, align 2",
            "%sitofp = sitofp i16 %x to float",
            "%sub = fsub float %f, %sitofp",
        ]
    );
    assert_eq!(emitted(binop(number(3), Operator::Add, decimal(0.5))), single("float 3.500000e+00"));
    assert_eq!(emitted(binop(decimal(0.5), Operator::Mult, number(3))), single("float 1.500000e+00"));
    assert_eq!(emitted(binop(number(3), Operator::Div, decimal(0.5))), single("float 6.000000e+00"));
    assert_eq!(emitted(binop(decimal(3.0), Operator::Div, number(2))), single("float 1.500000e+00"));
    let eight = binop(name("b"), Operator::Mult, name("f"));
    assert_eq!(emitted(eight).1, "%mul = fmul float %sitofp, %f");
}

#[test]
fn operators_on_floats_are_instructions() {
    let with = |op: Operator| emitted(binop(name("f"), op, name("g"))).1;
    assert_eq!(with(Operator::Add), "%add = fadd float %f, %g");
    assert_eq!(with(Operator::Sub), "%sub = fsub float %f, %g");
    assert_eq!(with(Operator::Mult), "%mul = fmul float %f, %g");
    assert_eq!(with(Operator::Div), "%div = fdiv float %f, %g");
    assert_eq!(with(Operator::Mod), "%mod = frem float %f, %g");
    assert_eq!(emitted(binop(decimal(7.5), Operator::Mod, decimal(2.0))), single("float 1.500000e+00"));
    assert_eq!(emitted(binop(decimal(7.5), Operator::Sub, decimal(2.0))), single("float 5.500000e+00"));
}

#[test]
fn other_operators_are_unsupported() {
    let others = vec![
        Operator::MatMult,
        Operator::Pow,
        Operator::LShift,
        Operator::RShift,
        Operator::BitOr,
        Operator::BitXor,
        Operator::BitAnd,
    ];
    for op in others {
        no_code(binop(number(1), op, number(2)));
        no_code(binop(number(1), op, decimal(2.0)));
        no_code(binop(decimal(1.0), op, decimal(2.0)));
        no_code(binop(decimal(1.0), op, number(2)));
    }
    no_code(binop(decimal(1.0), Operator::FloorDiv, decimal(2.0)));
    no_code(binop(number(1), Operator::FloorDiv, decimal(2.0)));
    no_code(binop(decimal(1.0), Operator::FloorDiv, number(2)));
}

#[test]
fn operators_take_numbers_only() {
    for other in vec!["t", "s"] {
        no_code(binop(name(other), Operator::Add, number(1)));
        no_code(binop(number(1), Operator::Add, name(other)));
        no_code(binop(decimal(1.0), Operator::Add, name(other)));
    }
    no_code(binop(node(1, ExpressionType::NoneConstant), Operator::Add, number(1)));
    no_code(binop(node(1, ExpressionType::True), Operator::Add, node(1, ExpressionType::True)));
}

#[test]
fn integers_of_different_widths_are_not_combined() {
    no_code(binop(name("b"), Operator::Add, name("x")));
    no_code(binop(number(1), Operator::Add, name("b")));
    no_code(compare(name("b"), Comparison::Less, name("x")));
}

#[test]
fn integers_of_8_bits_are_combined_as_such() {
    let context = Context::create();
    let mut codegen = with_variables(&context);
    let expr = binop(name("b"), Operator::Add, name("b"));
    let shape = Shape { value_type: ValueType::I16, kind: Some(BasicType::Int { width: 8 }), constant: false };
    assert_eq!(codegen.check_expr(&expr), Ok(shape));
    let value = codegen.emit_expr(&expr).unwrap();
    match value {
        Value::I16 { value } => assert_eq!(value.width, 8),
        _ => panic!("the value is not of type I16"),
    }
    let printed = codegen.llvm_value(value).unwrap().print_to_string().to_string();
    assert_eq!(printed.trim(), "%add = add i8 %b, %b1");
}

#[test]
fn floats_of_different_precisions_are_not_combined() {
    no_code(binop(name("d"), Operator::Add, decimal(1.0)));
    no_code(binop(name("f"), Operator::Add, name("d")));
    no_code(binop(name("d"), Operator::Mult, number(2)));
    no_code(binop(number(2), Operator::Mult, name("d")));
    no_code(compare(name("d"), Comparison::Less, name("f")));
    let sum = emitted(binop(name("d"), Operator::Add, name("d")));
    assert_eq!(sum, single("%add = fadd double %d, %d1"));
    let less = emitted(compare(name("d"), Comparison::Less, name("d")));
    assert_eq!(less, truth("%a = fcmp olt double %d, %d1"));
}

#[test]
fn quotient_and_remainder_make_up_the_dividend() {
    let numbers: Vec<(i64, i64)> = vec![(7, 2), (-7, 2), (7, -2), (-7, -2), (6, 3), (0, 5)];
    for (x, y) in numbers {
        let value = |op: Operator| -> i64 {
            let printed = emitted(binop(number(x), op, number(y))).1;
            printed.trim_start_matches("i16 ").parse().unwrap()
        };
        let (quotient, rest) = (value(Operator::FloorDiv), value(Operator::Mod));
        assert_eq!(quotient * y + rest, x);
        assert!(rest.abs() < y.abs());
        assert!(rest == 0 || (rest < 0) == (x < 0));
    }
}

#[test]
fn integer_beside_a_float_is_the_float_of_the_same_value() {
    let operators =
        vec![Operator::Add, Operator::Sub, Operator::Mult, Operator::Div, Operator::Mod];
    for n in vec![-32768i64, -3, 0, 7, 32767] {
        for op in operators.iter() {
            let first = emitted(binop(number(n), *op, decimal(2.5)));
            assert_eq!(first, emitted(binop(decimal(n as f64), *op, decimal(2.5))));
            assert_eq!(first.0, ValueType::F32);
            let last = emitted(binop(decimal(2.5), *op, number(n)));
            assert_eq!(last, emitted(binop(decimal(2.5), *op, decimal(n as f64))));
            assert_eq!(last.0, ValueType::F32);
        }
    }
}

#[test]
fn mirrored_comparisons_agree_and_negated_ones_differ() {
    let mirrored = vec![
        (Comparison::Less, Comparison::Greater),
        (Comparison::LessOrEqual, Comparison::GreaterOrEqual),
        (Comparison::Equal, Comparison::Equal),
        (Comparison::NotEqual, Comparison::NotEqual),
    ];
    let negated = vec![
        (Comparison::Less, Comparison::GreaterOrEqual),
        (Comparison::Greater, Comparison::LessOrEqual),
        (Comparison::Equal, Comparison::NotEqual),
    ];
    for (x, y) in vec![(1i64, 2i64), (2, 1), (-4, -4), (-1, 1)] {
        for (op, other) in mirrored.iter() {
            let one = emitted(compare(number(x), *op, number(y)));
            assert_eq!(one, emitted(compare(number(y), *other, number(x))));
            let one = emitted(compare(decimal(x as f64), *op, decimal(y as f64)));
            assert_eq!(one, emitted(compare(decimal(y as f64), *other, decimal(x as f64))));
        }
        for (op, other) in negated.iter() {
            let one = emitted(compare(number(x), *op, number(y)));
            assert_ne!(one, emitted(compare(number(x), *other, number(y))));
        }
    }
}

#[test]
fn integer_comparisons_are_signed() {
    let with = |op: Comparison| emitted(compare(name("x"), op, number(5)));
    assert_eq!(with(Comparison::Equal), truth("%a = icmp eq i16 %x, 5"));
    assert_eq!(with(Comparison::NotEqual), truth("%a = icmp ne i16 %x, 5"));
    assert_eq!(with(Comparison::Greater), truth("%a = icmp sgt i16 %x, 5"));
    assert_eq!(with(Comparison::Less), truth("%a = icmp slt i16 %x, 5"));
    assert_eq!(with(Comparison::GreaterOrEqual), truth("%a = icmp sge i16 %x, 5"));
    assert_eq!(with(Comparison::LessOrEqual), truth("%a = icmp sle i16 %x, 5"));
    assert_eq!(emitted(compare(number(-1), Comparison::Less, number(1))), truth("i1 true"));
    assert_eq!(emitted(compare(number(1), Comparison::Less, number(-1))), truth("i1 false"));
}

#[test]
fn float_comparisons_are_ordered() {
    let with = |op: Comparison| emitted(compare(name("f"), op, name("g")));
    assert_eq!(with(Comparison::Equal), truth("%a = fcmp oeq float %f, %g"));
    assert_eq!(with(Comparison::NotEqual), truth("%a = fcmp one float %f, %g"));
    assert_eq!(with(Comparison::Greater), truth("%a = fcmp ogt float %f, %g"));
    assert_eq!(with(Comparison::Less), truth("%a = fcmp olt float %f, %g"));
    assert_eq!(with(Comparison::GreaterOrEqual), truth("%a = fcmp oge float %f, %g"));
    assert_eq!(with(Comparison::LessOrEqual), truth("%a = fcmp ole float %f, %g"));
    assert_eq!(emitted(compare(decimal(1.0), Comparison::LessOrEqual, decimal(1.0))), truth("i1 true"));
    let not_a_number = decimal(f64::NAN);
    assert_eq!(emitted(compare(not_a_number, Comparison::NotEqual, decimal(1.0))), truth("i1 false"));
}

#[test]
fn comparison_has_a_shape_of_one_bit() {
    let context = Context::create();
    let codegen = with_variables(&context);
    let constant = compare(number(1), Comparison::Less, number(2));
    let shape = Shape { value_type: ValueType::Bool, kind: Some(BasicType::Int { width: 1 }), constant: true };
    assert_eq!(codegen.check_expr(&constant), Ok(shape));
    let variable = compare(number(1), Comparison::Less, name("x"));
    let shape = Shape { value_type: ValueType::Bool, kind: Some(BasicType::Int { width: 1 }), constant: false };
    assert_eq!(codegen.check_expr(&variable), Ok(shape));
}

#[test]
fn other_comparisons_are_unsupported() {
    for op in vec![Comparison::In, Comparison::NotIn, Comparison::Is, Comparison::IsNot] {
        no_code(compare(number(1), op, number(2)));
        no_code(compare(decimal(1.0), op, decimal(2.0)));
    }
    no_code(compare(number(1), Comparison::Less, decimal(2.0)));
    no_code(compare(decimal(1.0), Comparison::Less, number(2)));
    no_code(compare(name("t"), Comparison::Equal, name("t")));
    no_code(compare(name("s"), Comparison::Equal, name("s")));
    no_code(node(1, ExpressionType::Compare { vals: vec![], ops: vec![Comparison::Less] }));
    no_code(node(1, ExpressionType::Compare { vals: vec![number(1)], ops: vec![] }));
}

#[test]
fn chained_comparison_is_refused_without_code() {
    let context = Context::create();
    let before = untouched(&context);
    let mut codegen = with_variables(&context);
    let vals = vec![name("x"), name("y"), name("x")];
    let ops = vec![Comparison::Less, Comparison::Less];
    let chained = node(17, ExpressionType::Compare { vals, ops });
    let three = node(17, ExpressionType::Compare {
        vals: vec![number(1), number(2), number(3)],
        ops: vec![Comparison::Less],
    });
    let twice = node(17, ExpressionType::Compare {
        vals: vec![number(1)],
        ops: vec![Comparison::In, Comparison::In],
    });
    for expr in vec![&chained, &three, &twice] {
        assert_eq!(codegen.check_expr(expr), Err(Obstacle::Refused));
        let error = codegen.emit_expr(expr).unwrap_err();
        assert_eq!(error.location, Location { row: 1, column: 17 });
        assert_eq!(error.error, LLVMCompileErrorType::NotImplemented);
        match error.message {
            Message::Text(text) => assert_eq!(text, "Chained comparison is not implemented."),
            _ => panic!("the message is no text"),
        }
    }
    assert_eq!(before, codegen.into_module().print_to_string().to_string());
}

#[test]
fn lone_operand_is_compared_with_itself() {
    let vals = vec![name("x")];
    let expr = node(1, ExpressionType::Compare { vals, ops: vec![Comparison::Equal] });
    assert_eq!(
        instructions(expr),
        vec![
            "%x = load i16, i16* %xp, align 2",
            "%x1 = load i16, i16* %xp, align 2",
            "%a = icmp eq i16 %x, %x1",
        ]
    );
}

#[test]
fn boolean_operators_are_unsupported() {
    let values = vec![node(1, ExpressionType::True), node(1, ExpressionType::False)];
    no_code(node(1, ExpressionType::BoolOp { op: BooleanOperator::And, values }));
    no_code(node(1, ExpressionType::BoolOp { op: BooleanOperator::Or, values: vec![] }));
}

#[test]
fn failing_operand_is_reported_and_earlier_code_stays() {
    let context = Context::create();
    let mut codegen = with_variables(&context);
    let expr = binop(name("x"), Operator::Add, node(33, complex()));
    let error = codegen.emit_expr(&expr).unwrap_err();
    assert_eq!(error.location, Location { row: 1, column: 33 });
    // The right operand is not looked at if the left one fails.
    let expr = binop(node(44, complex()), Operator::Add, name("missing"));
    let error = codegen.emit_expr(&expr).unwrap_err();
    assert_eq!(error.location, Location { row: 1, column: 44 });
    assert_eq!(error.error, LLVMCompileErrorType::NotImplemented);
    let expr = compare(name("y"), Comparison::Less, node(55, complex()));
    let error = codegen.emit_expr(&expr).unwrap_err();
    assert_eq!(error.location, Location { row: 1, column: 55 });
    let code = codegen.into_module().print_to_string().to_string();
    assert!(code.contains("%x = load i16, i16* %xp"));
    assert!(code.contains("%y = load i16, i16* %yp"));
}

#[test]
fn same_expression_means_the_same_again() {
    let context = Context::create();
    let mut codegen = with_variables(&context);
    let expr = binop(name("x"), Operator::Add, binop(number(2), Operator::Mult, name("y")));
    let first = codegen.emit_expr(&expr).unwrap();
    let second = codegen.emit_expr(&expr).unwrap();
    assert_ne!(first, second);
    let printed = |value: Value| {
        codegen.llvm_value(value).unwrap().print_to_string().to_string().trim().to_string()
    };
    assert_eq!(printed(first), "%add = add i16 %x, %mul");
    assert_eq!(printed(second), "%add4 = add i16 %x1, %mul3");
}
