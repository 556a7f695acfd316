//! What code an expression is lowered to.
use crate::ast::{
    constant_text, Comparison, Expression, ExpressionType, Location, Number, Operator, StringGroup,
    UnaryOperator,
};
use crate::error::{Fault, LLVMCompileErrorType, MessageView};
use crate::integer::truncated;
use crate::ir::{
    before_nul, combined, compared, float_combined, FloatOperator, FloatPredicate, IntOperator,
    IntPredicate, Operation, Step,
};
use crate::scope::Scope;
use crate::value::{
    definite, stands_for, value_of, ArrayRef, BasicType, BasicValue, FloatRef, IntRef, PointerRef,
    Precision, Target, Value, ValueType,
};
use vstd::prelude::*;

verus! {

/// What comes of lowering something.
pub enum Outcome<T> {
    Done(T),
    Failed(Fault),
    /// Code generation has nothing to offer here, not even an error: no code is generated for it
    /// and no caller may ask.
    Unsupported,
}

/// The steps that lowering something takes, what comes of it, and the place in the source that it
/// ends at, which is where an error is reported.
pub struct Lowering<T> {
    pub location: Location,
    pub steps: Seq<Step>,
    pub outcome: Outcome<T>,
}

/// Some more steps and what comes of them.
pub struct Emission<T> {
    pub steps: Seq<Step>,
    pub outcome: Outcome<T>,
}

/// An outcome that is not `Done`, of whatever type.
pub open spec fn undone<S, T>(outcome: Outcome<S>) -> Outcome<T> {
    match outcome {
        Outcome::Failed(fault) => Outcome::Failed(fault),
        _ => Outcome::Unsupported,
    }
}

/// A lowering that has taken no steps.
pub open spec fn at_once<T>(location: Location, outcome: Outcome<T>) -> Lowering<T> {
    Lowering { location, steps: Seq::empty(), outcome }
}

/// A failure with a message that is a text.
pub open spec fn failure<T>(error: LLVMCompileErrorType, text: Seq<char>) -> Outcome<T> {
    Outcome::Failed(Fault { error, message: MessageView::Text(text) })
}

/// `lowering` stopped where it ended.
pub open spec fn stop<S, T>(lowering: Lowering<S>) -> Lowering<T> {
    Lowering {
        location: lowering.location,
        steps: lowering.steps,
        outcome: undone(lowering.outcome),
    }
}

/// `lowering` and then the steps of `emission`.
pub open spec fn extend<S, T>(lowering: Lowering<S>, emission: Emission<T>) -> Lowering<T> {
    Lowering {
        location: lowering.location,
        steps: lowering.steps + emission.steps,
        outcome: emission.outcome,
    }
}

/// `left` and then, unless it failed, `right`.
pub open spec fn both(left: Lowering<Value>, right: Lowering<Value>) -> Lowering<(Value, Value)> {
    match left.outcome {
        Outcome::Done(x) => Lowering {
            location: right.location,
            steps: left.steps + right.steps,
            outcome: match right.outcome {
                Outcome::Done(y) => Outcome::Done((x, y)),
                _ => undone(right.outcome),
            },
        },
        _ => stop(left),
    }
}

/// One step that gives `result`.
pub open spec fn one_step<T>(
    operation: Operation,
    result: BasicValue,
    outcome: Outcome<T>,
) -> Emission<T> {
    Emission { steps: seq![Step { operation, result: Some(result) }], outcome }
}

/// No steps, and nothing to offer.
pub open spec fn unsupported<T>() -> Emission<T> {
    Emission { steps: Seq::empty(), outcome: Outcome::Unsupported }
}

/// The constant of `width` bits that `value` truncates to.
pub open spec fn int_constant(at: nat, width: u32) -> IntRef {
    IntRef { id: at as usize, width, constant: true }
}

/// An integer literal, given by its lowest 64 bits: a constant of 16 bits.
pub open spec fn integer_literal(at: nat, bits: u64) -> Emission<Value> {
    let value = int_constant(at, 16);
    one_step(
        Operation::ConstInt { width: 16, value: bits, sign_extend: true },
        BasicValue::Int(value),
        Outcome::Done(Value::I16 { value }),
    )
}

/// A floating point literal, given by the bits of the double: a constant in single precision.
pub open spec fn float_literal(at: nat, bits: u64) -> Emission<Value> {
    let value = FloatRef { id: at as usize, precision: Precision::Single, constant: true };
    one_step(
        Operation::ConstFloat { bits },
        BasicValue::Float(value),
        Outcome::Done(Value::F32 { value }),
    )
}

/// `True` or `False`: a constant of one bit.
pub open spec fn bool_literal(at: nat, truth: bool) -> Emission<Value> {
    let value = int_constant(at, 1);
    one_step(
        Operation::ConstInt {
            width: 1,
            value: if truth {
                1
            } else {
                0
            },
            sign_extend: false,
        },
        BasicValue::Int(value),
        Outcome::Done(Value::Bool { value }),
    )
}

/// The bits of a double with the sign changed.
pub open spec fn negated_bits(bits: u64) -> u64 {
    bits ^ 0x8000_0000_0000_0000
}

/// A number literal.
pub open spec fn number(at: nat, value: Number) -> Emission<Value> {
    match value {
        Number::Integer { value } => integer_literal(at, truncated(value@)),
        Number::Float { bits } => float_literal(at, bits),
        Number::Complex { .. } => Emission {
            steps: Seq::empty(),
            outcome: failure(
                LLVMCompileErrorType::NotImplemented,
                "Imaginary numbers are not supported."@,
            ),
        },
    }
}

/// A unary operator before `node`: only a minus sign before a real number is lowered, and it
/// becomes part of the constant.
pub open spec fn unary(at: nat, op: UnaryOperator, node: ExpressionType) -> Emission<Value> {
    match node {
        ExpressionType::Number { value: Number::Integer { value } } => if op is Neg {
            integer_literal(at, truncated(-value@))
        } else {
            Emission {
                steps: Seq::empty(),
                outcome: failure(
                    LLVMCompileErrorType::NotImplemented,
                    "Unimplemented unop "@ + op.spec_name() + " for integer"@,
                ),
            }
        },
        ExpressionType::Number { value: Number::Float { bits } } => if op is Neg {
            float_literal(at, negated_bits(bits))
        } else {
            Emission {
                steps: Seq::empty(),
                outcome: failure(
                    LLVMCompileErrorType::NotImplemented,
                    "Unimplemented unop "@ + op.spec_name() + " for floating number"@,
                ),
            }
        },
        ExpressionType::Number { value: Number::Complex { .. } } => Emission {
            steps: Seq::empty(),
            outcome: failure(
                LLVMCompileErrorType::NotImplemented,
                "Complex numbers are not implemented."@,
            ),
        },
        _ => Emission {
            steps: Seq::empty(),
            outcome: Outcome::Failed(
                Fault {
                    error: LLVMCompileErrorType::NotImplemented,
                    message: MessageView::UnaryOperand(node),
                },
            ),
        },
    }
}

/// A string literal: in a function, a new global string. The string must have no formatted parts.
pub open spec fn string(scope: Scope, at: nat, group: StringGroup) -> Emission<Value> {
    match constant_text(group) {
        Some(text) => if scope.function is None {
            Emission {
                steps: Seq::empty(),
                outcome: failure(
                    LLVMCompileErrorType::NotImplemented,
                    "String expression in global scope is not implemented."@,
                ),
            }
        } else if scope.positioned {
            let value = PointerRef { id: at as usize, target: Target::Int { width: 8 } };
            one_step(
                Operation::GlobalString { text: before_nul(text), name: ".str"@ },
                BasicValue::Pointer(value),
                Outcome::Done(Value::Str { value }),
            )
        } else {
            unsupported()
        },
        None => unsupported(),
    }
}

/// A name: what the variable holds, loaded.
pub open spec fn identifier(scope: Scope, at: nat, name: Seq<char>) -> Emission<Value> {
    match scope.load(name) {
        Some(variable) => if scope.positioned && stands_for(
            variable.slot.pointee,
            variable.value_type,
        ) {
            let value = value_of(variable.slot.pointee, at as usize, false);
            one_step(
                Operation::Load { pointer: variable.slot.pointer, name },
                value,
                Outcome::Done(Value::of_basic(variable.value_type, value)),
            )
        } else {
            unsupported()
        },
        None => Emission {
            steps: Seq::empty(),
            outcome: failure(LLVMCompileErrorType::NameError, name),
        },
    }
}

/// The integer that a value of type `I8` or `I16` is.
pub open spec fn as_int(value: Value) -> Option<IntRef> {
    match value {
        Value::I8 { value } | Value::I16 { value } => Some(value),
        _ => None,
    }
}

/// The floating point number that a value of type `F32` is.
pub open spec fn as_float(value: Value) -> Option<FloatRef> {
    match value {
        Value::F32 { value } => Some(value),
        _ => None,
    }
}

/// How an operator combines two integers, and the name of what comes of it.
pub open spec fn int_operator(op: Operator) -> Option<(IntOperator, Seq<char>)> {
    match op {
        Operator::Add => Some((IntOperator::Add, "add"@)),
        Operator::Sub => Some((IntOperator::Sub, "sub"@)),
        Operator::Mult => Some((IntOperator::Mul, "mul"@)),
        Operator::FloorDiv => Some((IntOperator::SignedDiv, "fld"@)),
        Operator::Mod => Some((IntOperator::SignedRem, "mod"@)),
        _ => None,
    }
}

/// How an operator combines two floating point numbers, and the name of what comes of it.
pub open spec fn float_operator(op: Operator) -> Option<(FloatOperator, Seq<char>)> {
    match op {
        Operator::Add => Some((FloatOperator::Add, "add"@)),
        Operator::Sub => Some((FloatOperator::Sub, "sub"@)),
        Operator::Mult => Some((FloatOperator::Mul, "mul"@)),
        Operator::Div => Some((FloatOperator::Div, "div"@)),
        Operator::Mod => Some((FloatOperator::Rem, "mod"@)),
        _ => None,
    }
}

/// How an operator compares two integers.
pub open spec fn int_predicate(op: Comparison) -> Option<IntPredicate> {
    match op {
        Comparison::Equal => Some(IntPredicate::EQ),
        Comparison::NotEqual => Some(IntPredicate::NE),
        Comparison::Greater => Some(IntPredicate::SGT),
        Comparison::Less => Some(IntPredicate::SLT),
        Comparison::GreaterOrEqual => Some(IntPredicate::SGE),
        Comparison::LessOrEqual => Some(IntPredicate::SLE),
        _ => None,
    }
}

/// How an operator compares two floating point numbers.
pub open spec fn float_predicate(op: Comparison) -> Option<FloatPredicate> {
    match op {
        Comparison::Equal => Some(FloatPredicate::OEQ),
        Comparison::NotEqual => Some(FloatPredicate::ONE),
        Comparison::Greater => Some(FloatPredicate::OGT),
        Comparison::Less => Some(FloatPredicate::OLT),
        Comparison::GreaterOrEqual => Some(FloatPredicate::OGE),
        Comparison::LessOrEqual => Some(FloatPredicate::OLE),
        _ => None,
    }
}

/// The step that combines two floating point numbers.
pub open spec fn float_math_step(
    at: nat,
    operator: (FloatOperator, Seq<char>),
    lhs: FloatRef,
    rhs: FloatRef,
) -> Step {
    Step {
        operation: Operation::FloatMath { operator: operator.0, lhs, rhs, name: operator.1 },
        result: Some(BasicValue::Float(float_math_value(at, lhs, rhs))),
    }
}

/// What comes of combining two floating point numbers at step `at`.
pub open spec fn float_math_value(at: nat, lhs: FloatRef, rhs: FloatRef) -> FloatRef {
    float_combined(at as usize, lhs, rhs)
}

/// The integer `value` in single precision, at step `at`.
pub open spec fn float_of_int(at: nat, value: IntRef) -> FloatRef {
    FloatRef { id: at as usize, precision: Precision::Single, constant: value.constant }
}

/// The step that converts an integer to single precision.
pub open spec fn conversion_step(at: nat, value: IntRef) -> Step {
    Step {
        operation: Operation::SignedToFloat { value, name: "sitofp"@ },
        result: Some(BasicValue::Float(float_of_int(at, value))),
    }
}

/// The step that converts a dividend or a divisor to single precision: of a constant it makes a
/// constant.
pub open spec fn division_step(at: nat, value: IntRef) -> Step {
    if value.constant {
        Step {
            operation: Operation::ConstSignedToFloat { value },
            result: Some(BasicValue::Float(float_of_int(at, value))),
        }
    } else {
        conversion_step(at, value)
    }
}

/// Two integers combined. A quotient is a floating point number.
pub open spec fn int_binary(at: nat, lhs: IntRef, op: Operator, rhs: IntRef) -> Emission<Value> {
    if op is Div {
        let x = float_of_int(at, lhs);
        let y = float_of_int(at + 1, rhs);
        Emission {
            steps: seq![
                division_step(at, lhs),
                division_step(at + 1, rhs),
                float_math_step(at + 2, (FloatOperator::Div, "div"@), x, y),
            ],
            outcome: Outcome::Done(Value::F32 { value: float_math_value(at + 2, x, y) }),
        }
    } else {
        match int_operator(op) {
            Some((operator, name)) => if lhs.width == rhs.width {
                let value = combined(at as usize, lhs, rhs);
                one_step(
                    Operation::IntMath { operator, lhs, rhs, name },
                    BasicValue::Int(value),
                    Outcome::Done(Value::I16 { value }),
                )
            } else {
                unsupported()
            },
            None => unsupported(),
        }
    }
}

/// Two values combined: integers as integers; an integer next to a floating point number is
/// converted to single precision first. Floating point numbers must have the same precision.
pub open spec fn binary(at: nat, left: Value, op: Operator, right: Value) -> Emission<Value> {
    match (as_int(left), as_float(left), as_int(right), as_float(right)) {
        (Some(lhs), _, Some(rhs), _) => int_binary(at, lhs, op, rhs),
        (Some(lhs), _, _, Some(rhs)) => match float_operator(op) {
            Some(operator) => if rhs.precision is Single {
                let cast = float_of_int(at, lhs);
                Emission {
                    steps: seq![
                        conversion_step(at, lhs),
                        float_math_step(at + 1, operator, cast, rhs),
                    ],
                    outcome: Outcome::Done(
                        Value::F32 { value: float_math_value(at + 1, cast, rhs) },
                    ),
                }
            } else {
                unsupported()
            },
            None => unsupported(),
        },
        (_, Some(lhs), _, Some(rhs)) => match float_operator(op) {
            Some(operator) => if lhs.precision == rhs.precision {
                Emission {
                    steps: seq![float_math_step(at, operator, lhs, rhs)],
                    outcome: Outcome::Done(Value::F32 { value: float_math_value(at, lhs, rhs) }),
                }
            } else {
                unsupported()
            },
            None => unsupported(),
        },
        (_, Some(lhs), Some(rhs), _) => match float_operator(op) {
            Some(operator) => if lhs.precision is Single {
                let cast = float_of_int(at, rhs);
                Emission {
                    steps: seq![
                        conversion_step(at, rhs),
                        float_math_step(at + 1, operator, lhs, cast),
                    ],
                    outcome: Outcome::Done(
                        Value::F32 { value: float_math_value(at + 1, lhs, cast) },
                    ),
                }
            } else {
                unsupported()
            },
            None => unsupported(),
        },
        _ => unsupported(),
    }
}

/// Two values compared: integers of the same width, or floating point numbers of the same
/// precision.
pub open spec fn comparison(at: nat, left: Value, op: Comparison, right: Value) -> Emission<Value> {
    match (as_int(left), as_float(left), as_int(right), as_float(right)) {
        (Some(lhs), _, Some(rhs), _) => match int_predicate(op) {
            Some(predicate) => if lhs.width == rhs.width {
                let value = compared(at as usize, lhs.constant && rhs.constant);
                one_step(
                    Operation::IntCompare { predicate, lhs, rhs, name: "a"@ },
                    BasicValue::Int(value),
                    Outcome::Done(Value::Bool { value }),
                )
            } else {
                unsupported()
            },
            None => unsupported(),
        },
        (_, Some(lhs), _, Some(rhs)) => match float_predicate(op) {
            Some(predicate) => if lhs.precision == rhs.precision {
                let value = compared(at as usize, lhs.constant && rhs.constant);
                one_step(
                    Operation::FloatCompare { predicate, lhs, rhs, name: "a"@ },
                    BasicValue::Int(value),
                    Outcome::Done(Value::Bool { value }),
                )
            } else {
                unsupported()
            },
            None => unsupported(),
        },
        _ => unsupported(),
    }
}

/// Whether `values` can be the elements of a constant array: constant integers of one width, at
/// least one and no more than LLVM can count.
pub open spec fn makes_array(values: Seq<BasicValue>) -> bool {
    &&& 0 < values.len() <= u32::MAX
    &&& forall|i: int|
        0 <= i < values.len() ==> {
            &&& #[trigger] values[i] is Int
            &&& values[i]->Int_0.constant
            &&& values[i]->Int_0.width == values[0]->Int_0.width
        }
}

/// The elements of a list or a tuple as a constant array.
pub open spec fn array(at: nat, values: Seq<BasicValue>) -> Emission<Value> {
    if makes_array(values) {
        let value = ArrayRef { id: at as usize, sized: true };
        one_step(
            Operation::ConstArray {
                elements: values.map_values(|value: BasicValue| value->Int_0),
            },
            BasicValue::Array(value),
            Outcome::Done(Value::Array { value }),
        )
    } else {
        unsupported()
    }
}

/// An argument converted to the type of the parameter that it is for.
pub open spec fn argument(at: nat, value: Value, param: BasicType) -> Emission<BasicValue> {
    match value {
        Value::Bool { value } | Value::I16 { value } => match param {
            BasicType::Int { width } => if width <= value.width {
                let cast = BasicValue::Int(
                    IntRef { id: at as usize, width, constant: value.constant },
                );
                one_step(
                    Operation::IntTruncate { value, width, name: "itrunc"@ },
                    cast,
                    Outcome::Done(cast),
                )
            } else {
                unsupported()
            },
            _ => unsupported(),
        },
        Value::I8 { value } => match param {
            BasicType::Int { width } => {
                let cast = BasicValue::Int(
                    IntRef { id: at as usize, width, constant: value.constant },
                );
                one_step(
                    Operation::IntCast { value, width, name: "icast"@ },
                    cast,
                    Outcome::Done(cast),
                )
            },
            _ => unsupported(),
        },
        Value::F32 { value } => if param == (BasicType::Float { precision: value.precision }) {
            Emission {
                steps: Seq::empty(),
                outcome: Outcome::Done(BasicValue::Float(value)),
            }
        } else {
            unsupported()
        },
        Value::Str { value } => if definite(param) && param == (BasicType::Pointer {
            target: value.target,
        }) {
            Emission {
                steps: Seq::empty(),
                outcome: Outcome::Done(BasicValue::Pointer(value)),
            }
        } else {
            unsupported()
        },
        Value::Void | Value::Array { .. } => Emission {
            steps: Seq::empty(),
            outcome: failure(
                LLVMCompileErrorType::NotImplemented,
                "Unimplemented argument type '"@ + value.value_type().spec_name() + "'"@,
            ),
        },
    }
}

/// The type of what a call gives, of a function whose result has type `kind`.
pub open spec fn result_type(kind: Option<BasicType>) -> Option<ValueType> {
    match kind {
        None => Some(ValueType::Void),
        Some(BasicType::Int { width: 8 }) => Some(ValueType::I8),
        Some(BasicType::Int { width: 16 }) => Some(ValueType::I16),
        Some(BasicType::Float { .. }) => Some(ValueType::F32),
        _ => None,
    }
}

/// A tail call of the function `symbol` with `arguments`, one for each parameter.
pub open spec fn call(
    scope: Scope,
    at: nat,
    symbol: Seq<char>,
    arguments: Seq<BasicValue>,
) -> Emission<Value> {
    let signature = scope.functions[symbol];
    let operation = Operation::Call { function: symbol, arguments, name: "call"@, tail: true };
    if arguments.len() != signature.params.len() {
        unsupported()
    } else {
        match (result_type(signature.result), signature.result) {
            (Some(value_type), Some(kind)) => {
                let value = value_of(kind, at as usize, false);
                one_step(operation, value, Outcome::Done(Value::of_basic(value_type, value)))
            },
            (Some(_), None) => Emission {
                steps: seq![Step { operation, result: None }],
                outcome: Outcome::Done(Value::Void),
            },
            _ => unsupported(),
        }
    }
}

/// The lesser of two lengths.
pub open spec fn shorter(m: nat, n: nat) -> nat {
    if m < n {
        m
    } else {
        n
    }
}

/// Two operands, lowered one after the other, and then combined.
pub open spec fn combine(
    at: nat,
    left: Lowering<Value>,
    op: Operator,
    right: Lowering<Value>,
) -> Lowering<Value> {
    let operands = both(left, right);
    match operands.outcome {
        Outcome::Done((x, y)) => extend(operands, binary(at + operands.steps.len(), x, op, y)),
        _ => stop(operands),
    }
}

/// Two operands, lowered one after the other, and then compared.
pub open spec fn relate(
    at: nat,
    left: Lowering<Value>,
    ops: Seq<Comparison>,
    right: Lowering<Value>,
) -> Lowering<Value> {
    let operands = both(left, right);
    match operands.outcome {
        Outcome::Done((x, y)) => extend(
            operands,
            if ops.len() == 0 {
                unsupported()
            } else {
                comparison(at + operands.steps.len(), x, ops[0], y)
            },
        ),
        _ => stop(operands),
    }
}

/// The code that `e` is lowered to, in `scope`, as the steps from number `at` on.
pub open spec fn lower(scope: Scope, at: nat, e: Expression) -> Lowering<Value>
    decreases e, 0nat,
{
    let here = at_once(e.location, Outcome::Done(Value::Void));
    match e.node {
        ExpressionType::Number { value } => extend(here, number(at, value)),
        ExpressionType::String { value } => extend(here, string(scope, at, value)),
        ExpressionType::Identifier { name } => extend(here, identifier(scope, at, name@)),
        ExpressionType::Unop { op, a } => extend(here, unary(at, op, a.node)),
        ExpressionType::True => extend(here, bool_literal(at, true)),
        ExpressionType::False => extend(here, bool_literal(at, false)),
        ExpressionType::NoneConstant => here,
        ExpressionType::Binop { a, op, b } => {
            let left = lower(scope, at, *a);
            let right = lower(scope, at + left.steps.len(), *b);
            combine(at, left, op, right)
        },
        ExpressionType::Compare { vals, ops } => lower_comparison(
            scope,
            at,
            e.location,
            vals@,
            ops@,
        ),
        ExpressionType::BoolOp { .. } => at_once(e.location, Outcome::Unsupported),
        ExpressionType::List { elements } | ExpressionType::Tuple { elements } => lower_list(
            scope,
            at,
            e.location,
            elements@,
        ),
        ExpressionType::Call { function, args, keywords } => lower_call(
            scope,
            at,
            e.location,
            *function,
            args@,
        ),
        ExpressionType::Other { .. } => at_once(
            e.location,
            Outcome::Failed(
                Fault {
                    error: LLVMCompileErrorType::NotImplemented,
                    message: MessageView::Expression(e),
                },
            ),
        ),
    }
}

/// A binary operator between `a` and `b`.
pub open spec fn lower_operator(
    scope: Scope,
    at: nat,
    a: Expression,
    op: Operator,
    b: Expression,
) -> Lowering<Value> {
    let left = lower(scope, at, a);
    let right = lower(scope, at + left.steps.len(), b);
    combine(at, left, op, right)
}

/// A comparison that stands at `location`: of two expressions by one operator.
pub open spec fn lower_comparison(
    scope: Scope,
    at: nat,
    location: Location,
    vals: Seq<Expression>,
    ops: Seq<Comparison>,
) -> Lowering<Value>
    decreases vals, 0nat,
{
    if ops.len() > 1 || vals.len() > 2 {
        at_once(
            location,
            failure(
                LLVMCompileErrorType::NotImplemented,
                "Chained comparison is not implemented."@,
            ),
        )
    } else if vals.len() == 0 {
        at_once(location, Outcome::Unsupported)
    } else {
        let left = lower(scope, at, vals[0]);
        relate(at, left, ops, lower(scope, at + left.steps.len(), vals[vals.len() - 1]))
    }
}

/// A list or a tuple that stands at `location`.
pub open spec fn lower_list(
    scope: Scope,
    at: nat,
    location: Location,
    elements: Seq<Expression>,
) -> Lowering<Value>
    decreases elements, elements.len() + 1,
{
    let values = lower_elements(scope, at, location, elements, elements.len());
    match values.outcome {
        Outcome::Done(parts) => extend(values, array(at + values.steps.len(), parts)),
        _ => stop(values),
    }
}

/// A call that stands at `location`. The first argument is lowered before the function is looked
/// up, and the others after.
pub open spec fn lower_call(
    scope: Scope,
    at: nat,
    location: Location,
    function: Expression,
    args: Seq<Expression>,
) -> Lowering<Value>
    decreases args, args.len() + 1,
{
    match function.node {
        ExpressionType::Identifier { name } => {
            let first = if args.len() == 0 {
                at_once(location, Outcome::Done(Value::Void))
            } else {
                lower(scope, at, args[0])
            };
            match first.outcome {
                Outcome::Done(value) => match scope.resolve(name@, value.value_type()) {
                    Some(symbol) => if !scope.functions[symbol].known {
                        extend(first, unsupported())
                    } else {
                        let params = scope.functions[symbol].params;
                        let n = shorter(args.len(), params.len());
                        let passed = lower_arguments(scope, at, first, value, args, params, n);
                        match passed.outcome {
                            Outcome::Done(arguments) => extend(
                                passed,
                                call(scope, at + passed.steps.len(), symbol, arguments),
                            ),
                            _ => stop(passed),
                        }
                    },
                    None => extend(
                        first,
                        Emission {
                            steps: Seq::empty(),
                            outcome: failure(LLVMCompileErrorType::NameError, name@),
                        },
                    ),
                },
                _ => stop(first),
            }
        },
        _ => at_once(
            location,
            failure(
                LLVMCompileErrorType::NotImplemented,
                "Calling method is not implemented."@,
            ),
        ),
    }
}

/// The first `n` elements of a list that stands at `location`, lowered one after the other.
pub open spec fn lower_elements(
    scope: Scope,
    at: nat,
    location: Location,
    elements: Seq<Expression>,
    n: nat,
) -> Lowering<Seq<BasicValue>>
    decreases elements, n,
{
    if n == 0 || n > elements.len() {
        at_once(location, Outcome::Done(Seq::empty()))
    } else {
        let before = lower_elements(scope, at, location, elements, (n - 1) as nat);
        match before.outcome {
            Outcome::Done(values) => {
                let element = lower(scope, at + before.steps.len(), elements[n - 1]);
                Lowering {
                    location: element.location,
                    steps: before.steps + element.steps,
                    outcome: match element.outcome {
                        Outcome::Done(value) => match value.basic() {
                            Some(basic) => Outcome::Done(values.push(basic)),
                            None => Outcome::Unsupported,
                        },
                        _ => undone(element.outcome),
                    },
                }
            },
            _ => before,
        }
    }
}

/// The first `n` arguments of a call, each lowered and then converted to the type of its
/// parameter. The first one was lowered before, by `first`, to `value`.
pub open spec fn lower_arguments(
    scope: Scope,
    at: nat,
    first: Lowering<Value>,
    value: Value,
    args: Seq<Expression>,
    params: Seq<BasicType>,
    n: nat,
) -> Lowering<Seq<BasicValue>>
    decreases args, n,
{
    if n == 0 || n > args.len() {
        extend(first, Emission { steps: Seq::empty(), outcome: Outcome::Done(Seq::empty()) })
    } else {
        let before = lower_arguments(scope, at, first, value, args, params, (n - 1) as nat);
        match before.outcome {
            Outcome::Done(arguments) => {
                let lowered = if n == 1 {
                    at_once(before.location, Outcome::Done(value))
                } else {
                    lower(scope, at + before.steps.len(), args[n - 1])
                };
                let steps = before.steps + lowered.steps;
                match lowered.outcome {
                    Outcome::Done(value) => {
                        let converted = argument(at + steps.len(), value, params[n - 1]);
                        Lowering {
                            location: lowered.location,
                            steps: steps + converted.steps,
                            outcome: match converted.outcome {
                                Outcome::Done(basic) => Outcome::Done(arguments.push(basic)),
                                _ => undone(converted.outcome),
                            },
                        }
                    },
                    _ => Lowering {
                        location: lowered.location,
                        steps,
                        outcome: undone(lowered.outcome),
                    },
                }
            },
            _ => before,
        }
    }
}

} // verus!
