//! What code each form of expression becomes, form by form.
//!
//! Each law takes what the parts of an expression become and says step by step what the whole does.
use crate::ast::{
    constant_text, Comparison, Expression, ExpressionType, Location, Number, Operator, StringGroup,
    UnaryOperator,
};
use crate::error::{Fault, LLVMCompileErrorType, MessageView};
use crate::integer::Integer;
use crate::ir::{FloatOperator, FloatPredicate, IntOperator, IntPredicate, Operation, Step};
use crate::lowering::{
    array, binary, int_binary, lower, lower_elements, makes_array, Lowering, Outcome,
};
use crate::numbers::{combination, compares_by};
use crate::scope::Scope;
use crate::typing::{typing, typing_foretells_lowering, Obstacle};
use crate::value::{
    ArrayRef, BasicType, BasicValue, FloatRef, IntRef, PointerRef, Precision, Shape, Target, Value,
    ValueType,
};
use vstd::prelude::*;

verus! {

/// Whether `code` is one step that does `operation` and gives `result`, which stands for `value`.
pub open spec fn single(
    code: Lowering<Value>,
    operation: Operation,
    result: BasicValue,
    value: Value,
) -> bool {
    &&& code.steps == seq![Step { operation, result: Some(result) }]
    &&& code.outcome == Outcome::Done(value)
}

/// Whether `code` is an error right away, with a text as its message.
pub open spec fn refused(
    code: Lowering<Value>,
    error: LLVMCompileErrorType,
    text: Seq<char>,
) -> bool {
    &&& code.steps.len() == 0
    &&& code.outcome == Outcome::<Value>::Failed(Fault { error, message: MessageView::Text(text) })
}

/// An expression at `location` with a minus sign before `node`, which stands at `inner`.
pub open spec fn minus(location: Location, inner: Location, node: ExpressionType) -> Expression {
    sign(location, UnaryOperator::Neg, inner, node)
}

/// An expression at `location` with `op` before `node`, which stands at `inner`.
pub open spec fn sign(
    location: Location,
    op: UnaryOperator,
    inner: Location,
    node: ExpressionType,
) -> Expression {
    Expression {
        location,
        node: ExpressionType::Unop { op, a: Box::new(Expression { location: inner, node }) },
    }
}

/// An integer literal becomes the constant of 16 bits that the integer truncates to: the bits that
/// LLVM gets are the integer modulo 2^64. With a minus sign they are those of the opposite integer.
pub proof fn integer_literal_code(
    scope: Scope,
    at: nat,
    location: Location,
    inner: Location,
    value: Integer,
)
    ensures
        ({
            let node = ExpressionType::Number { value: Number::Integer { value } };
            let literal = Expression { location, node };
            let code = lower(scope, at, literal);
            let opposite = lower(scope, at, minus(location, inner, node));
            let made = IntRef { id: at as usize, width: 16, constant: true };
            let shape = Shape {
                value_type: ValueType::I16,
                kind: Some(BasicType::Int { width: 16 }),
                constant: true,
            };
            &&& exists|bits: u64|
                #![trigger single(
                    code,
                    Operation::ConstInt { width: 16, value: bits, sign_extend: true },
                    BasicValue::Int(made),
                    Value::I16 { value: made },
                )]
                bits as int == value@ % 0x1_0000_0000_0000_0000 && single(
                    code,
                    Operation::ConstInt { width: 16, value: bits, sign_extend: true },
                    BasicValue::Int(made),
                    Value::I16 { value: made },
                )
            &&& exists|bits: u64|
                #![trigger single(
                    opposite,
                    Operation::ConstInt { width: 16, value: bits, sign_extend: true },
                    BasicValue::Int(made),
                    Value::I16 { value: made },
                )]
                bits as int == (-value@) % 0x1_0000_0000_0000_0000 && single(
                    opposite,
                    Operation::ConstInt { width: 16, value: bits, sign_extend: true },
                    BasicValue::Int(made),
                    Value::I16 { value: made },
                )
            &&& code.location == location && opposite.location == location
            &&& typing(scope, literal) == Ok::<Shape, Obstacle>(shape)
            &&& typing(scope, minus(location, inner, node)) == Ok::<Shape, Obstacle>(shape)
        }),
{
    let node = ExpressionType::Number { value: Number::Integer { value } };
    let code = lower(scope, at, Expression { location, node });
    let opposite = lower(scope, at, minus(location, inner, node));
    let made = IntRef { id: at as usize, width: 16, constant: true };
    let bits = (value@ % 0x1_0000_0000_0000_0000) as u64;
    assert(single(
        code,
        Operation::ConstInt { width: 16, value: bits, sign_extend: true },
        BasicValue::Int(made),
        Value::I16 { value: made },
    ));
    let others = ((-value@) % 0x1_0000_0000_0000_0000) as u64;
    assert(single(
        opposite,
        Operation::ConstInt { width: 16, value: others, sign_extend: true },
        BasicValue::Int(made),
        Value::I16 { value: made },
    ));
}

/// A floating point literal becomes the constant of its bits. With a minus sign the highest bit,
/// the sign, is the other one, and the rest are the same.
pub proof fn float_literal_code(
    scope: Scope,
    at: nat,
    location: Location,
    inner: Location,
    bits: u64,
)
    ensures
        ({
            let node = ExpressionType::Number { value: Number::Float { bits } };
            let literal = Expression { location, node };
            let code = lower(scope, at, literal);
            let opposite = lower(scope, at, minus(location, inner, node));
            let made = FloatRef { id: at as usize, precision: Precision::Single, constant: true };
            let shape = Shape {
                value_type: ValueType::F32,
                kind: Some(BasicType::Float { precision: Precision::Single }),
                constant: true,
            };
            let result = BasicValue::Float(made);
            &&& single(code, Operation::ConstFloat { bits }, result, Value::F32 { value: made })
            &&& exists|others: u64|
                #![trigger single(
                    opposite,
                    Operation::ConstFloat { bits: others },
                    result,
                    Value::F32 { value: made },
                )]
                {
                    &&& others % 0x8000_0000_0000_0000 == bits % 0x8000_0000_0000_0000
                    &&& (others < 0x8000_0000_0000_0000) != (bits < 0x8000_0000_0000_0000)
                    &&& single(
                        opposite,
                        Operation::ConstFloat { bits: others },
                        result,
                        Value::F32 { value: made },
                    )
                }
            &&& code.location == location && opposite.location == location
            &&& typing(scope, literal) == Ok::<Shape, Obstacle>(shape)
            &&& typing(scope, minus(location, inner, node)) == Ok::<Shape, Obstacle>(shape)
        }),
{
    let node = ExpressionType::Number { value: Number::Float { bits } };
    let opposite = lower(scope, at, minus(location, inner, node));
    let made = FloatRef { id: at as usize, precision: Precision::Single, constant: true };
    let others = bits ^ 0x8000_0000_0000_0000;
    assert(others % 0x8000_0000_0000_0000 == bits % 0x8000_0000_0000_0000 && (others
        < 0x8000_0000_0000_0000) != (bits < 0x8000_0000_0000_0000)) by (bit_vector)
        requires
            others == bits ^ 0x8000_0000_0000_0000,
    ;
    assert(single(
        opposite,
        Operation::ConstFloat { bits: others },
        BasicValue::Float(made),
        Value::F32 { value: made },
    ));
}

/// `True` becomes the one-bit constant 1 and `False` the one-bit constant 0. `None` becomes no
/// code.
pub proof fn constant_code(scope: Scope, at: nat, location: Location)
    ensures
        ({
            let yes = Expression { location, node: ExpressionType::True };
            let no = Expression { location, node: ExpressionType::False };
            let none = Expression { location, node: ExpressionType::NoneConstant };
            let made = IntRef { id: at as usize, width: 1, constant: true };
            let bit = Shape {
                value_type: ValueType::Bool,
                kind: Some(BasicType::Int { width: 1 }),
                constant: true,
            };
            let nothing = Shape { value_type: ValueType::Void, kind: None, constant: false };
            &&& single(
                lower(scope, at, yes),
                Operation::ConstInt { width: 1, value: 1, sign_extend: false },
                BasicValue::Int(made),
                Value::Bool { value: made },
            )
            &&& single(
                lower(scope, at, no),
                Operation::ConstInt { width: 1, value: 0, sign_extend: false },
                BasicValue::Int(made),
                Value::Bool { value: made },
            )
            &&& lower(scope, at, none).steps.len() == 0
            &&& lower(scope, at, none).outcome == Outcome::Done(Value::Void)
            &&& lower(scope, at, yes).location == location
            &&& lower(scope, at, no).location == location
            &&& lower(scope, at, none).location == location
            &&& typing(scope, yes) == Ok::<Shape, Obstacle>(bit)
            &&& typing(scope, no) == Ok::<Shape, Obstacle>(bit)
            &&& typing(scope, none) == Ok::<Shape, Obstacle>(nothing)
        }),
{
}

/// Complex numbers are refused, and so is every sign but the minus sign before a real number, with
/// messages that tell the operator.
pub proof fn number_refused(
    scope: Scope,
    at: nat,
    location: Location,
    inner: Location,
    op: UnaryOperator,
    value: Number,
)
    ensures
        ({
            let node = ExpressionType::Number { value };
            let literal = Expression { location, node };
            let signed = sign(location, op, inner, node);
            let what = if value is Integer {
                " for integer"@
            } else {
                " for floating number"@
            };
            let error = LLVMCompileErrorType::NotImplemented;
            &&& value is Complex ==> {
                &&& refused(
                    lower(scope, at, literal),
                    error,
                    "Imaginary numbers are not supported."@,
                )
                &&& refused(
                    lower(scope, at, signed),
                    error,
                    "Complex numbers are not implemented."@,
                )
                &&& typing(scope, literal) == Err::<Shape, Obstacle>(Obstacle::Refused)
                &&& typing(scope, signed) == Err::<Shape, Obstacle>(Obstacle::Refused)
            }
            &&& !(value is Complex) && !(op is Neg) ==> {
                &&& op is Pos ==> refused(
                    lower(scope, at, signed),
                    error,
                    "Unimplemented unop "@ + "Pos"@ + what,
                )
                &&& op is Not ==> refused(
                    lower(scope, at, signed),
                    error,
                    "Unimplemented unop "@ + "Not"@ + what,
                )
                &&& op is Inv ==> refused(
                    lower(scope, at, signed),
                    error,
                    "Unimplemented unop "@ + "Inv"@ + what,
                )
                &&& typing(scope, signed) == Err::<Shape, Obstacle>(Obstacle::Refused)
            }
            &&& lower(scope, at, literal).location == location
            &&& lower(scope, at, signed).location == location
        }),
{
}

/// A sign before anything but a number is refused, with that as the message. So is every form that
/// no code is generated for, whole. Boolean operators are not handled at all.
pub proof fn form_refused(scope: Scope, at: nat, e: Expression)
    ensures
        ({
            let code = lower(scope, at, e);
            &&& e.node matches ExpressionType::Unop { op, a } ==> (!(a.node is Number) ==> {
                &&& code.steps.len() == 0
                &&& code.outcome == Outcome::<Value>::Failed(
                    Fault {
                        error: LLVMCompileErrorType::NotImplemented,
                        message: MessageView::UnaryOperand(a.node),
                    },
                )
                &&& code.location == e.location
                &&& typing(scope, e) == Err::<Shape, Obstacle>(Obstacle::Refused)
            })
            &&& e.node is Other ==> {
                &&& code.steps.len() == 0
                &&& code.outcome == Outcome::<Value>::Failed(
                    Fault {
                        error: LLVMCompileErrorType::NotImplemented,
                        message: MessageView::Expression(e),
                    },
                )
                &&& code.location == e.location
                &&& typing(scope, e) == Err::<Shape, Obstacle>(Obstacle::Refused)
            }
            &&& e.node is BoolOp ==> {
                &&& code.steps.len() == 0
                &&& code.outcome is Unsupported
                &&& typing(scope, e) == Err::<Shape, Obstacle>(Obstacle::Unsupported)
            }
        }),
{
}

/// A string literal in a function becomes a new global string of its text, up to a NUL in it. At
/// the top level it is refused. Formatted strings are not handled, nor strings where there is no
/// block.
pub proof fn string_code(scope: Scope, at: nat, location: Location, value: StringGroup)
    ensures
        ({
            let e = Expression { location, node: ExpressionType::String { value } };
            let code = lower(scope, at, e);
            let made = PointerRef { id: at as usize, target: Target::Int { width: 8 } };
            let shape = Shape {
                value_type: ValueType::Str,
                kind: Some(BasicType::Pointer { target: Target::Int { width: 8 } }),
                constant: false,
            };
            &&& constant_text(value) is None || (scope.function is Some && !scope.positioned) ==> {
                &&& code.steps.len() == 0
                &&& code.outcome is Unsupported
                &&& typing(scope, e) == Err::<Shape, Obstacle>(Obstacle::Unsupported)
            }
            &&& constant_text(value) is Some && scope.function is None ==> {
                &&& refused(
                    code,
                    LLVMCompileErrorType::NotImplemented,
                    "String expression in global scope is not implemented."@,
                )
                &&& typing(scope, e) == Err::<Shape, Obstacle>(Obstacle::Refused)
            }
            &&& constant_text(value) matches Some(text) ==> (scope.function is Some
                && scope.positioned ==> {
                &&& exists|kept: Seq<char>|
                    #![trigger single(
                        code,
                        Operation::GlobalString { text: kept, name: ".str"@ },
                        BasicValue::Pointer(made),
                        Value::Str { value: made },
                    )]
                    {
                        &&& kept.is_prefix_of(text)
                        &&& !kept.contains('\0')
                        &&& kept.len() < text.len() ==> text[kept.len() as int] == '\0'
                        &&& single(
                            code,
                            Operation::GlobalString { text: kept, name: ".str"@ },
                            BasicValue::Pointer(made),
                            Value::Str { value: made },
                        )
                    }
                &&& typing(scope, e) == Ok::<Shape, Obstacle>(shape)
            })
            &&& code.location == location
        }),
{
    if let Some(text) = constant_text(value) {
        let e = Expression { location, node: ExpressionType::String { value } };
        let code = lower(scope, at, e);
        let made = PointerRef { id: at as usize, target: Target::Int { width: 8 } };
        let kept = crate::ir::before_nul(text);
        lemma_before_nul(text);
        if scope.function is Some && scope.positioned {
            assert(single(
                code,
                Operation::GlobalString { text: kept, name: ".str"@ },
                BasicValue::Pointer(made),
                Value::Str { value: made },
            ));
        }
    }
}

/// What comes before a NUL.
proof fn lemma_before_nul(text: Seq<char>)
    ensures
        ({
            let kept = crate::ir::before_nul(text);
            &&& kept.is_prefix_of(text)
            &&& !kept.contains('\0')
            &&& kept.len() < text.len() ==> text[kept.len() as int] == '\0'
        }),
    decreases text.len(),
{
    if text.len() > 0 && text[0] != '\0' {
        let rest = crate::ir::before_nul(text.skip(1));
        let kept = crate::ir::before_nul(text);
        lemma_before_nul(text.skip(1));
        assert(kept.is_prefix_of(text)) by {
            assert forall|i: int| 0 <= i < kept.len() implies kept[i] == text[i] by {
                if i > 0 {
                    assert(kept[i] == rest[i - 1]);
                    assert(rest[i - 1] == text.skip(1).take(rest.len() as int)[i - 1]);
                }
            }
            assert(kept =~= text.take(kept.len() as int));
        }
        assert forall|i: int| 0 <= i < kept.len() implies kept[i] != '\0' by {
            if i > 0 {
                assert(kept[i] == rest[i - 1]);
                assert(rest.contains(rest[i - 1]));
            }
        }
    }
}

/// Whether `code` loads from `pointer` a value that is no constant, and says what it stands for.
pub open spec fn loads(
    code: Lowering<Value>,
    pointer: PointerRef,
    name: Seq<char>,
    result: BasicValue,
    value: Value,
) -> bool {
    single(code, Operation::Load { pointer, name }, result, value)
}

/// A name becomes a load from the place of the variable that it means: the local of the function
/// that has the name, or else the global. A name of neither is an error that tells it. What is
/// loaded is a number, a string or an array, whichever the variable is.
pub proof fn variable_code(scope: Scope, at: nat, location: Location, name: String)
    ensures
        ({
            let e = Expression { location, node: ExpressionType::Identifier { name } };
            let code = lower(scope, at, e);
            let local = (scope.function, name@);
            let global = (None::<Seq<char>>, name@);
            let id = at as usize;
            &&& !scope.variables.contains_key(local) && !scope.variables.contains_key(global) ==> {
                &&& refused(code, LLVMCompileErrorType::NameError, name@)
                &&& typing(scope, e) == Err::<Shape, Obstacle>(Obstacle::Refused)
            }
            &&& scope.variables.contains_key(local) || scope.variables.contains_key(global) ==> {
                let variable = if scope.variables.contains_key(local) {
                    scope.variables[local]
                } else {
                    scope.variables[global]
                };
                let pointer = variable.slot.pointer;
                let shape = Shape {
                    value_type: variable.value_type,
                    kind: Some(variable.slot.pointee),
                    constant: false,
                };
                match (variable.value_type, variable.slot.pointee) {
                    (ValueType::Bool, BasicType::Int { width }) if scope.positioned => {
                        let value = IntRef { id, width, constant: false };
                        let result = BasicValue::Int(value);
                        &&& loads(code, pointer, name@, result, Value::Bool { value })
                        &&& typing(scope, e) == Ok::<Shape, Obstacle>(shape)
                    },
                    (ValueType::I8, BasicType::Int { width }) if scope.positioned => {
                        let value = IntRef { id, width, constant: false };
                        let result = BasicValue::Int(value);
                        &&& loads(code, pointer, name@, result, Value::I8 { value })
                        &&& typing(scope, e) == Ok::<Shape, Obstacle>(shape)
                    },
                    (ValueType::I16, BasicType::Int { width }) if scope.positioned => {
                        let value = IntRef { id, width, constant: false };
                        let result = BasicValue::Int(value);
                        &&& loads(code, pointer, name@, result, Value::I16 { value })
                        &&& typing(scope, e) == Ok::<Shape, Obstacle>(shape)
                    },
                    (ValueType::F32, BasicType::Float { precision }) if scope.positioned => {
                        let value = FloatRef { id, precision, constant: false };
                        let result = BasicValue::Float(value);
                        &&& loads(code, pointer, name@, result, Value::F32 { value })
                        &&& typing(scope, e) == Ok::<Shape, Obstacle>(shape)
                    },
                    (ValueType::Str, BasicType::Pointer { target }) if scope.positioned => {
                        let value = PointerRef { id, target };
                        let result = BasicValue::Pointer(value);
                        &&& loads(code, pointer, name@, result, Value::Str { value })
                        &&& typing(scope, e) == Ok::<Shape, Obstacle>(shape)
                    },
                    (ValueType::Array, BasicType::Array { sized: true }) if scope.positioned => {
                        let value = ArrayRef { id, sized: true };
                        let result = BasicValue::Array(value);
                        &&& loads(code, pointer, name@, result, Value::Array { value })
                        &&& typing(scope, e) == Ok::<Shape, Obstacle>(shape)
                    },
                    _ => {
                        &&& code.steps.len() == 0
                        &&& code.outcome is Unsupported
                        &&& typing(scope, e) == Err::<Shape, Obstacle>(Obstacle::Unsupported)
                    },
                }
            }
            &&& code.location == location
        }),
{
}

/// Whether `code` is that of `left`, then that of `right`, and then `more`.
pub open spec fn goes_on(
    code: Lowering<Value>,
    left: Lowering<Value>,
    right: Lowering<Value>,
    more: Seq<Step>,
) -> bool {
    &&& code.steps == left.steps + right.steps + more
    &&& code.location == right.location
}

/// Whether `code` stops after that of `left` and `right`, as something that is not handled.
pub open spec fn gives_up(
    code: Lowering<Value>,
    left: Lowering<Value>,
    right: Lowering<Value>,
) -> bool {
    &&& goes_on(code, left, right, Seq::empty())
    &&& code.outcome is Unsupported
}

/// Whether what came of it is `number`, an integer of type `I8` or `I16`.
pub open spec fn integer_is(outcome: Outcome<Value>, number: IntRef) -> bool {
    outcome == Outcome::Done(Value::I8 { value: number }) || outcome == Outcome::Done(
        Value::I16 { value: number },
    )
}

/// Whether what came of it is `number`, a floating point number.
pub open spec fn float_is(outcome: Outcome<Value>, number: FloatRef) -> bool {
    outcome == Outcome::Done(Value::F32 { value: number })
}

/// The step that combines two integers.
pub open spec fn integer_step(
    operator: IntOperator,
    lhs: IntRef,
    rhs: IntRef,
    name: Seq<char>,
    result: IntRef,
) -> Seq<Step> {
    seq![
        Step {
            operation: Operation::IntMath { operator, lhs, rhs, name },
            result: Some(BasicValue::Int(result)),
        },
    ]
}

/// The step that combines two floating point numbers.
pub open spec fn float_step(
    operator: FloatOperator,
    lhs: FloatRef,
    rhs: FloatRef,
    name: Seq<char>,
    result: FloatRef,
) -> Seq<Step> {
    seq![
        Step {
            operation: Operation::FloatMath { operator, lhs, rhs, name },
            result: Some(BasicValue::Float(result)),
        },
    ]
}

/// The step that makes a floating point number of an integer.
pub open spec fn cast_step(value: IntRef, result: FloatRef) -> Seq<Step> {
    seq![
        Step {
            operation: Operation::SignedToFloat { value, name: "sitofp"@ },
            result: Some(BasicValue::Float(result)),
        },
    ]
}

/// The step that makes a floating point constant of a constant integer.
pub open spec fn constant_cast_step(value: IntRef, result: FloatRef) -> Seq<Step> {
    seq![
        Step {
            operation: Operation::ConstSignedToFloat { value },
            result: Some(BasicValue::Float(result)),
        },
    ]
}

/// The shape of a number that an operator gives.
pub open spec fn number_shape(value_type: ValueType, kind: BasicType, constant: bool) -> Shape {
    Shape { value_type, kind: Some(kind), constant }
}

/// `+`, `-`, `*`, `//` and `%` between two integers of one width become the code of the left
/// operand, the code of the right one, and the one instruction that adds, subtracts, multiplies,
/// divides with a sign or takes the remainder with a sign, of the left and the right one in this
/// order. No other operator takes two integers, but for `/`, and none takes two of different width.
pub proof fn integer_operation_code(
    scope: Scope,
    at: nat,
    location: Location,
    a: Expression,
    op: Operator,
    b: Expression,
    x: IntRef,
    y: IntRef,
)
    requires
        integer_is(lower(scope, at, a).outcome, x),
        integer_is(lower(scope, at + lower(scope, at, a).steps.len(), b).outcome, y),
        !(op is Div),
    ensures
        ({
            let e = combination(location, a, op, b);
            let code = lower(scope, at, e);
            let left = lower(scope, at, a);
            let right = lower(scope, at + left.steps.len(), b);
            let id = (at + left.steps.len() + right.steps.len()) as usize;
            let r = IntRef { id, width: x.width, constant: x.constant && y.constant };
            let handled = op is Add || op is Sub || op is Mult || op is FloorDiv || op is Mod;
            &&& handled && x.width == y.width ==> {
                &&& op is Add ==> goes_on(
                    code,
                    left,
                    right,
                    integer_step(IntOperator::Add, x, y, "add"@, r),
                )
                &&& op is Sub ==> goes_on(
                    code,
                    left,
                    right,
                    integer_step(IntOperator::Sub, x, y, "sub"@, r),
                )
                &&& op is Mult ==> goes_on(
                    code,
                    left,
                    right,
                    integer_step(IntOperator::Mul, x, y, "mul"@, r),
                )
                &&& op is FloorDiv ==> goes_on(
                    code,
                    left,
                    right,
                    integer_step(IntOperator::SignedDiv, x, y, "fld"@, r),
                )
                &&& op is Mod ==> goes_on(
                    code,
                    left,
                    right,
                    integer_step(IntOperator::SignedRem, x, y, "mod"@, r),
                )
                &&& code.outcome == Outcome::Done(Value::I16 { value: r })
                &&& typing(scope, e) == Ok::<Shape, Obstacle>(
                    number_shape(
                        ValueType::I16,
                        BasicType::Int { width: x.width },
                        x.constant && y.constant,
                    ),
                )
            }
            &&& !handled || x.width != y.width ==> {
                &&& gives_up(code, left, right)
                &&& typing(scope, e) == Err::<Shape, Obstacle>(Obstacle::Unsupported)
            }
        }),
{
    let e = combination(location, a, op, b);
    let left = lower(scope, at, a);
    let right = lower(scope, at + left.steps.len(), b);
    typing_foretells_lowering(scope, at, e);
    assert(lower(scope, at, e).steps.len() <= left.steps.len() + right.steps.len() + 1);
}

/// `/` between two integers of any width makes single precision numbers of both, the left one
/// first, and divides the left by the right. Of constants it makes constants.
pub proof fn integer_division_code(
    scope: Scope,
    at: nat,
    location: Location,
    a: Expression,
    b: Expression,
    x: IntRef,
    y: IntRef,
)
    requires
        integer_is(lower(scope, at, a).outcome, x),
        integer_is(lower(scope, at + lower(scope, at, a).steps.len(), b).outcome, y),
    ensures
        ({
            let e = combination(location, a, Operator::Div, b);
            let code = lower(scope, at, e);
            let left = lower(scope, at, a);
            let right = lower(scope, at + left.steps.len(), b);
            let id = at + left.steps.len() + right.steps.len();
            let precision = Precision::Single;
            let lhs = FloatRef { id: id as usize, precision, constant: x.constant };
            let rhs = FloatRef { id: (id + 1) as usize, precision, constant: y.constant };
            let r = FloatRef {
                id: (id + 2) as usize,
                precision,
                constant: x.constant && y.constant,
            };
            let first = if x.constant {
                constant_cast_step(x, lhs)
            } else {
                cast_step(x, lhs)
            };
            let second = if y.constant {
                constant_cast_step(y, rhs)
            } else {
                cast_step(y, rhs)
            };
            &&& goes_on(
                code,
                left,
                right,
                first + second + float_step(FloatOperator::Div, lhs, rhs, "div"@, r),
            )
            &&& code.outcome == Outcome::Done(Value::F32 { value: r })
            &&& typing(scope, e) == Ok::<Shape, Obstacle>(
                number_shape(
                    ValueType::F32,
                    BasicType::Float { precision },
                    x.constant && y.constant,
                ),
            )
        }),
{
    let e = combination(location, a, Operator::Div, b);
    typing_foretells_lowering(scope, at, e);
    let left = lower(scope, at, a);
    let right = lower(scope, at + left.steps.len(), b);
    let id = at + left.steps.len() + right.steps.len();
    let steps = int_binary(id, x, Operator::Div, y).steps;
    assert(steps =~= seq![steps[0]] + seq![steps[1]] + seq![steps[2]]);
}

/// Whether `code` is that of `left` and `right`, then `casts`, and then the instruction that `op`
/// stands for between the floating point numbers `lhs` and `rhs` in this order.
pub open spec fn combines_floats(
    code: Lowering<Value>,
    left: Lowering<Value>,
    right: Lowering<Value>,
    casts: Seq<Step>,
    op: Operator,
    lhs: FloatRef,
    rhs: FloatRef,
    r: FloatRef,
) -> bool {
    &&& op is Add ==> goes_on(
        code,
        left,
        right,
        casts + float_step(FloatOperator::Add, lhs, rhs, "add"@, r),
    )
    &&& op is Sub ==> goes_on(
        code,
        left,
        right,
        casts + float_step(FloatOperator::Sub, lhs, rhs, "sub"@, r),
    )
    &&& op is Mult ==> goes_on(
        code,
        left,
        right,
        casts + float_step(FloatOperator::Mul, lhs, rhs, "mul"@, r),
    )
    &&& op is Div ==> goes_on(
        code,
        left,
        right,
        casts + float_step(FloatOperator::Div, lhs, rhs, "div"@, r),
    )
    &&& op is Mod ==> goes_on(
        code,
        left,
        right,
        casts + float_step(FloatOperator::Rem, lhs, rhs, "mod"@, r),
    )
    &&& code.outcome == Outcome::Done(Value::F32 { value: r })
}

/// `+`, `-`, `*`, `/` and `%` between two floating point numbers of one precision become the
/// instruction that adds, subtracts, multiplies, divides or takes the remainder, of the left and
/// the right one in this order. No other operator takes them, nor two of different precision.
pub proof fn float_operation_code(
    scope: Scope,
    at: nat,
    location: Location,
    a: Expression,
    op: Operator,
    b: Expression,
    x: FloatRef,
    y: FloatRef,
)
    requires
        float_is(lower(scope, at, a).outcome, x),
        float_is(lower(scope, at + lower(scope, at, a).steps.len(), b).outcome, y),
    ensures
        ({
            let e = combination(location, a, op, b);
            let code = lower(scope, at, e);
            let left = lower(scope, at, a);
            let right = lower(scope, at + left.steps.len(), b);
            let id = (at + left.steps.len() + right.steps.len()) as usize;
            let constant = x.constant && y.constant;
            let r = FloatRef { id, precision: x.precision, constant };
            let handled = op is Add || op is Sub || op is Mult || op is Div || op is Mod;
            &&& handled && x.precision == y.precision ==> {
                &&& combines_floats(code, left, right, Seq::empty(), op, x, y, r)
                &&& typing(scope, e) == Ok::<Shape, Obstacle>(
                    number_shape(
                        ValueType::F32,
                        BasicType::Float { precision: x.precision },
                        constant,
                    ),
                )
            }
            &&& !handled || x.precision != y.precision ==> {
                &&& gives_up(code, left, right)
                &&& typing(scope, e) == Err::<Shape, Obstacle>(Obstacle::Unsupported)
            }
        }),
{
    let e = combination(location, a, op, b);
    typing_foretells_lowering(scope, at, e);
}

/// Between an integer and a floating point number in single precision, on either side, the integer
/// is first made a number in single precision, and then the two are combined as floating point
/// numbers are, the left one still first. No other precision is taken beside an integer.
pub proof fn mixed_operation_code(
    scope: Scope,
    at: nat,
    location: Location,
    a: Expression,
    op: Operator,
    b: Expression,
    x: IntRef,
    y: FloatRef,
)
    requires
        ({
            let left = lower(scope, at, a).outcome;
            let right = lower(scope, at + lower(scope, at, a).steps.len(), b).outcome;
            integer_is(left, x) && float_is(right, y) || float_is(left, y) && integer_is(right, x)
        }),
    ensures
        ({
            let e = combination(location, a, op, b);
            let code = lower(scope, at, e);
            let left = lower(scope, at, a);
            let right = lower(scope, at + left.steps.len(), b);
            let id = at + left.steps.len() + right.steps.len();
            let constant = x.constant && y.constant;
            let precision = Precision::Single;
            let cast = FloatRef { id: id as usize, precision, constant: x.constant };
            let r = FloatRef { id: (id + 1) as usize, precision, constant };
            let handled = op is Add || op is Sub || op is Mult || op is Div || op is Mod;
            &&& handled && y.precision is Single && integer_is(left.outcome, x) ==> combines_floats(
                code,
                left,
                right,
                cast_step(x, cast),
                op,
                cast,
                y,
                r,
            )
            &&& handled && y.precision is Single && integer_is(right.outcome, x)
                ==> combines_floats(code, left, right, cast_step(x, cast), op, y, cast, r)
            &&& handled && y.precision is Single ==> typing(scope, e) == Ok::<Shape, Obstacle>(
                number_shape(ValueType::F32, BasicType::Float { precision }, constant),
            )
            &&& !handled || !(y.precision is Single) ==> {
                &&& gives_up(code, left, right)
                &&& typing(scope, e) == Err::<Shape, Obstacle>(Obstacle::Unsupported)
            }
        }),
{
    let e = combination(location, a, op, b);
    typing_foretells_lowering(scope, at, e);
    let left = lower(scope, at, a);
    let right = lower(scope, at + left.steps.len(), b);
    let id = at + left.steps.len() + right.steps.len();
    let steps = binary(id, left.outcome->Done_0, op, right.outcome->Done_0).steps;
    if steps.len() == 2 {
        assert(steps =~= seq![steps[0]] + seq![steps[1]]);
    }
}

/// Whether `outcome` is a number that operators take.
pub open spec fn number_is(outcome: Outcome<Value>) -> bool {
    outcome matches Outcome::Done(value) && (value is I8 || value is I16 || value is F32)
}

/// Whether `code` stops where `part` stopped, for the same reason, after `steps`.
pub open spec fn stops_with(
    code: Lowering<Value>,
    part: Lowering<Value>,
    steps: Seq<Step>,
) -> bool {
    &&& code.steps == steps
    &&& code.location == part.location
    &&& part.outcome matches Outcome::Failed(fault) ==> code.outcome == Outcome::<Value>::Failed(
        fault,
    )
    &&& part.outcome is Unsupported ==> code.outcome is Unsupported
}

/// Operators and comparisons take numbers only. Where an operand fails they fail with it, and the
/// right operand gets no code if the left one fails.
pub proof fn operands_needed(
    scope: Scope,
    at: nat,
    location: Location,
    a: Expression,
    op: Operator,
    b: Expression,
    e: Expression,
    by: Comparison,
)
    requires
        e == combination(location, a, op, b) || compares_by(e, a, by, b),
    ensures
        ({
            let code = lower(scope, at, e);
            let left = lower(scope, at, a);
            let right = lower(scope, at + left.steps.len(), b);
            &&& !(left.outcome is Done) ==> stops_with(code, left, left.steps) && typing(scope, e)
                == typing(scope, a)
            &&& left.outcome is Done && !(right.outcome is Done) ==> stops_with(
                code,
                right,
                left.steps + right.steps,
            ) && typing(scope, e) == typing(scope, b)
            &&& left.outcome is Done && right.outcome is Done && !(number_is(left.outcome)
                && number_is(right.outcome)) ==> gives_up(code, left, right) && typing(scope, e)
                == Err::<Shape, Obstacle>(Obstacle::Unsupported)
        }),
{
    let left = lower(scope, at, a);
    typing_foretells_lowering(scope, at, e);
    typing_foretells_lowering(scope, at, a);
    typing_foretells_lowering(scope, at + left.steps.len(), b);
    if compares_by(e, a, by, b) {
        lemma_compares(scope, at, e, a, by, b);
    }
}

/// A comparison lowers its two operands and relates them.
proof fn lemma_compares(
    scope: Scope,
    at: nat,
    e: Expression,
    a: Expression,
    op: Comparison,
    b: Expression,
)
    requires
        compares_by(e, a, op, b),
    ensures
        lower(scope, at, e) == crate::lowering::relate(
            at,
            lower(scope, at, a),
            seq![op],
            lower(scope, at + lower(scope, at, a).steps.len(), b),
        ),
{
    reveal_with_fuel(lower, 2);
    reveal_with_fuel(crate::lowering::lower_comparison, 2);
}

/// The step that compares two integers.
pub open spec fn integer_test(
    predicate: IntPredicate,
    lhs: IntRef,
    rhs: IntRef,
    result: IntRef,
) -> Seq<Step> {
    seq![
        Step {
            operation: Operation::IntCompare { predicate, lhs, rhs, name: "a"@ },
            result: Some(BasicValue::Int(result)),
        },
    ]
}

/// The step that compares two floating point numbers.
pub open spec fn float_test(
    predicate: FloatPredicate,
    lhs: FloatRef,
    rhs: FloatRef,
    result: IntRef,
) -> Seq<Step> {
    seq![
        Step {
            operation: Operation::FloatCompare { predicate, lhs, rhs, name: "a"@ },
            result: Some(BasicValue::Int(result)),
        },
    ]
}

/// Whether `op` compares numbers.
pub open spec fn orders(op: Comparison) -> bool {
    !(op is In) && !(op is NotIn) && !(op is Is) && !(op is IsNot)
}

/// `==`, `!=`, `<`, `<=`, `>` and `>=` between two integers of one width become the code of both
/// and the one comparison with a sign that the operator stands for, of the left and the right one
/// in this order, which gives a boolean of one bit. Membership and identity are not handled.
pub proof fn integer_comparison_code(
    scope: Scope,
    at: nat,
    e: Expression,
    a: Expression,
    op: Comparison,
    b: Expression,
    x: IntRef,
    y: IntRef,
)
    requires
        compares_by(e, a, op, b),
        integer_is(lower(scope, at, a).outcome, x),
        integer_is(lower(scope, at + lower(scope, at, a).steps.len(), b).outcome, y),
    ensures
        ({
            let code = lower(scope, at, e);
            let left = lower(scope, at, a);
            let right = lower(scope, at + left.steps.len(), b);
            let id = (at + left.steps.len() + right.steps.len()) as usize;
            let r = IntRef { id, width: 1, constant: x.constant && y.constant };
            &&& orders(op) && x.width == y.width ==> {
                &&& op is Equal ==> goes_on(
                    code,
                    left,
                    right,
                    integer_test(IntPredicate::EQ, x, y, r),
                )
                &&& op is NotEqual ==> goes_on(
                    code,
                    left,
                    right,
                    integer_test(IntPredicate::NE, x, y, r),
                )
                &&& op is Less ==> goes_on(
                    code,
                    left,
                    right,
                    integer_test(IntPredicate::SLT, x, y, r),
                )
                &&& op is LessOrEqual ==> goes_on(
                    code,
                    left,
                    right,
                    integer_test(IntPredicate::SLE, x, y, r),
                )
                &&& op is Greater ==> goes_on(
                    code,
                    left,
                    right,
                    integer_test(IntPredicate::SGT, x, y, r),
                )
                &&& op is GreaterOrEqual ==> goes_on(
                    code,
                    left,
                    right,
                    integer_test(IntPredicate::SGE, x, y, r),
                )
                &&& code.outcome == Outcome::Done(Value::Bool { value: r })
                &&& typing(scope, e) == Ok::<Shape, Obstacle>(
                    number_shape(
                        ValueType::Bool,
                        BasicType::Int { width: 1 },
                        x.constant && y.constant,
                    ),
                )
            }
            &&& !orders(op) || x.width != y.width ==> {
                &&& gives_up(code, left, right)
                &&& typing(scope, e) == Err::<Shape, Obstacle>(Obstacle::Unsupported)
            }
        }),
{
    lemma_compares(scope, at, e, a, op, b);
    typing_foretells_lowering(scope, at, e);
}

/// The same between two floating point numbers of one precision, by the ordered comparisons. An
/// integer is not compared with a floating point number.
pub proof fn float_comparison_code(
    scope: Scope,
    at: nat,
    e: Expression,
    a: Expression,
    op: Comparison,
    b: Expression,
    x: FloatRef,
    y: FloatRef,
)
    requires
        compares_by(e, a, op, b),
        float_is(lower(scope, at, a).outcome, x),
        float_is(lower(scope, at + lower(scope, at, a).steps.len(), b).outcome, y),
    ensures
        ({
            let code = lower(scope, at, e);
            let left = lower(scope, at, a);
            let right = lower(scope, at + left.steps.len(), b);
            let id = (at + left.steps.len() + right.steps.len()) as usize;
            let r = IntRef { id, width: 1, constant: x.constant && y.constant };
            &&& orders(op) && x.precision == y.precision ==> {
                &&& op is Equal ==> goes_on(
                    code,
                    left,
                    right,
                    float_test(FloatPredicate::OEQ, x, y, r),
                )
                &&& op is NotEqual ==> goes_on(
                    code,
                    left,
                    right,
                    float_test(FloatPredicate::ONE, x, y, r),
                )
                &&& op is Less ==> goes_on(
                    code,
                    left,
                    right,
                    float_test(FloatPredicate::OLT, x, y, r),
                )
                &&& op is LessOrEqual ==> goes_on(
                    code,
                    left,
                    right,
                    float_test(FloatPredicate::OLE, x, y, r),
                )
                &&& op is Greater ==> goes_on(
                    code,
                    left,
                    right,
                    float_test(FloatPredicate::OGT, x, y, r),
                )
                &&& op is GreaterOrEqual ==> goes_on(
                    code,
                    left,
                    right,
                    float_test(FloatPredicate::OGE, x, y, r),
                )
                &&& code.outcome == Outcome::Done(Value::Bool { value: r })
                &&& typing(scope, e) == Ok::<Shape, Obstacle>(
                    number_shape(
                        ValueType::Bool,
                        BasicType::Int { width: 1 },
                        x.constant && y.constant,
                    ),
                )
            }
            &&& !orders(op) || x.precision != y.precision ==> {
                &&& gives_up(code, left, right)
                &&& typing(scope, e) == Err::<Shape, Obstacle>(Obstacle::Unsupported)
            }
        }),
{
    lemma_compares(scope, at, e, a, op, b);
    typing_foretells_lowering(scope, at, e);
}

/// An integer and a floating point number are not compared with each other.
pub proof fn mixed_comparison_code(
    scope: Scope,
    at: nat,
    e: Expression,
    a: Expression,
    op: Comparison,
    b: Expression,
    x: IntRef,
    y: FloatRef,
)
    requires
        compares_by(e, a, op, b),
        ({
            let left = lower(scope, at, a).outcome;
            let right = lower(scope, at + lower(scope, at, a).steps.len(), b).outcome;
            integer_is(left, x) && float_is(right, y) || float_is(left, y) && integer_is(right, x)
        }),
    ensures
        gives_up(
            lower(scope, at, e),
            lower(scope, at, a),
            lower(scope, at + lower(scope, at, a).steps.len(), b),
        ),
        typing(scope, e) == Err::<Shape, Obstacle>(Obstacle::Unsupported),
{
    lemma_compares(scope, at, e, a, op, b);
    typing_foretells_lowering(scope, at, e);
}

/// A comparison of one value compares it with itself, and is lowered twice. Without an operator, or
/// without values, a comparison is not handled.
pub proof fn lone_comparison(
    scope: Scope,
    at: nat,
    e: Expression,
    vals: Vec<Expression>,
    ops: Vec<Comparison>,
    twice: Expression,
)
    requires
        e.node == (ExpressionType::Compare { vals, ops }),
        vals@.len() <= 1,
        ops@.len() <= 1,
    ensures
        vals@.len() == 1 && ops@.len() == 1 && compares_by(twice, vals@[0], ops@[0], vals@[0])
            ==> lower(scope, at, e) == lower(scope, at, twice) && typing(scope, e) == typing(
            scope,
            twice,
        ),
        vals@.len() == 0 ==> lower(scope, at, e).outcome is Unsupported && lower(
            scope,
            at,
            e,
        ).steps.len() == 0,
        vals@.len() == 1 && ops@.len() == 0 && typing(scope, vals@[0]) is Ok ==> lower(
            scope,
            at,
            e,
        ).outcome is Unsupported,
{
    reveal_with_fuel(lower, 2);
    reveal_with_fuel(crate::lowering::lower_comparison, 2);
    typing_foretells_lowering(scope, at, e);
    typing_foretells_lowering(scope, at, twice);
    if vals@.len() == 1 {
        let left = lower(scope, at, vals@[0]);
        typing_foretells_lowering(scope, at, vals@[0]);
        typing_foretells_lowering(scope, at + left.steps.len(), vals@[0]);
    }
}

/// How many steps come before those of expression `i` if `expressions` are lowered one after the
/// other.
pub open spec fn start(scope: Scope, at: nat, expressions: Seq<Expression>, i: nat) -> nat
    decreases i,
{
    if i == 0 {
        0
    } else {
        let before = start(scope, at, expressions, (i - 1) as nat);
        before + lower(scope, at + before, expressions[i - 1]).steps.len()
    }
}

/// What expression `i` becomes if `expressions` are lowered one after the other.
pub open spec fn nth(
    scope: Scope,
    at: nat,
    expressions: Seq<Expression>,
    i: nat,
) -> Lowering<Value> {
    lower(scope, at + start(scope, at, expressions, i), expressions[i as int])
}

/// Whether the code of the first `n` of `expressions`, one after the other, is where `steps` start.
pub open spec fn in_order(
    scope: Scope,
    at: nat,
    expressions: Seq<Expression>,
    n: nat,
    steps: Seq<Step>,
) -> bool {
    forall|i: nat|
        #![trigger nth(scope, at, expressions, i)]
        i < n ==> {
            let from = start(scope, at, expressions, i);
            let code = nth(scope, at, expressions, i);
            &&& from + code.steps.len() <= steps.len()
            &&& steps.subrange(from as int, (from + code.steps.len()) as int) == code.steps
        }
}

/// Whether `value` is held by LLVM as `basic`.
pub open spec fn held_as(value: Value, basic: BasicValue) -> bool {
    match value {
        Value::Void => false,
        Value::Bool { value } | Value::I8 { value } | Value::I16 { value } => basic
            == BasicValue::Int(value),
        Value::F32 { value } => basic == BasicValue::Float(value),
        Value::Str { value } => basic == BasicValue::Pointer(value),
        Value::Array { value } => basic == BasicValue::Array(value),
    }
}

/// What comes after does not change the order.
proof fn lemma_in_order(
    scope: Scope,
    at: nat,
    expressions: Seq<Expression>,
    n: nat,
    steps: Seq<Step>,
    more: Seq<Step>,
)
    requires
        in_order(scope, at, expressions, n, steps),
    ensures
        in_order(scope, at, expressions, n, steps + more),
{
    assert forall|i: nat| #![trigger nth(scope, at, expressions, i)] i < n implies {
        let from = start(scope, at, expressions, i);
        let code = nth(scope, at, expressions, i);
        &&& from + code.steps.len() <= (steps + more).len()
        &&& (steps + more).subrange(from as int, (from + code.steps.len()) as int) == code.steps
    } by {
        let from = start(scope, at, expressions, i) as int;
        let to = from + nth(scope, at, expressions, i).steps.len();
        assert((steps + more).subrange(from, to) =~= steps.subrange(from, to));
    }
}

/// The code of one more expression.
proof fn lemma_one_more(
    scope: Scope,
    at: nat,
    expressions: Seq<Expression>,
    k: nat,
    steps: Seq<Step>,
)
    requires
        in_order(scope, at, expressions, k, steps),
        steps.len() == start(scope, at, expressions, k),
    ensures
        in_order(scope, at, expressions, k + 1, steps + nth(scope, at, expressions, k).steps),
        start(scope, at, expressions, k + 1) == steps.len() + nth(
            scope,
            at,
            expressions,
            k,
        ).steps.len(),
{
    let more = nth(scope, at, expressions, k).steps;
    lemma_in_order(scope, at, expressions, k, steps, more);
    assert((steps + more).subrange(steps.len() as int, (steps.len() + more.len()) as int)
        =~= more);
}

/// Whether a value comes of it.
pub open spec fn gives_something(outcome: Outcome<Value>) -> bool {
    outcome is Done && outcome != Outcome::Done(Value::Void)
}

/// The elements of a list are lowered one after the other.
proof fn lemma_elements(
    scope: Scope,
    at: nat,
    location: Location,
    elements: Seq<Expression>,
    n: nat,
)
    requires
        n <= elements.len(),
        forall|i: nat|
            #![trigger nth(scope, at, elements, i)]
            i < n ==> gives_something(nth(scope, at, elements, i).outcome),
    ensures
        ({
            let all = lower_elements(scope, at, location, elements, n);
            &&& all.outcome matches Outcome::Done(values)
            &&& values.len() == n
            &&& forall|i: nat|
                #![trigger nth(scope, at, elements, i)]
                i < n ==> held_as(nth(scope, at, elements, i).outcome->Done_0, values[i as int])
            &&& all.steps.len() == start(scope, at, elements, n)
            &&& in_order(scope, at, elements, n, all.steps)
            &&& n > 0 ==> all.location == nth(scope, at, elements, (n - 1) as nat).location
            &&& n == 0 ==> all.location == location
        }),
    decreases n,
{
    if n > 0 {
        let k = (n - 1) as nat;
        lemma_elements(scope, at, location, elements, k);
        let before = lower_elements(scope, at, location, elements, k);
        lemma_one_more(scope, at, elements, k, before.steps);
    }
}

/// What stops the elements of a list stops the list: no element after it gets code.
proof fn lemma_elements_stop(
    scope: Scope,
    at: nat,
    location: Location,
    elements: Seq<Expression>,
    k: nat,
    n: nat,
)
    requires
        k < n <= elements.len(),
        !(lower_elements(scope, at, location, elements, k + 1).outcome is Done),
    ensures
        lower_elements(scope, at, location, elements, n) == lower_elements(
            scope,
            at,
            location,
            elements,
            k + 1,
        ),
    decreases n,
{
    if k + 1 < n {
        lemma_elements_stop(scope, at, location, elements, k, (n - 1) as nat);
    }
}

/// The integer that a number or a boolean is.
pub open spec fn whole_number(value: Value) -> Option<IntRef> {
    match value {
        Value::Bool { value } | Value::I8 { value } | Value::I16 { value } => Some(value),
        _ => None,
    }
}

/// Whether all `elements` of a list become constant integers of the width of the first.
pub open spec fn constants(scope: Scope, at: nat, elements: Seq<Expression>) -> bool {
    forall|i: nat|
        #![trigger nth(scope, at, elements, i)]
        i < elements.len() ==> {
            let first = whole_number(nth(scope, at, elements, 0).outcome->Done_0)->0;
            &&& nth(scope, at, elements, i).outcome matches Outcome::Done(value)
            &&& whole_number(value) matches Some(number)
            &&& number.constant
            &&& number.width == first.width
        }
}

/// A list of constant integers of one width becomes the code of its elements, one after the other,
/// and a constant array whose element `i` is the constant that element `i` of the list becomes.
/// Other elements, and lists that are empty or too long, are not handled.
#[verifier::rlimit(40)]
pub proof fn list_code(scope: Scope, at: nat, e: Expression, elements: Vec<Expression>)
    requires
        e.node == (ExpressionType::List { elements }) || e.node == (ExpressionType::Tuple {
            elements,
        }),
        forall|i: nat|
            #![trigger nth(scope, at, elements@, i)]
            i < elements@.len() ==> gives_something(nth(scope, at, elements@, i).outcome),
    ensures
        ({
            let code = lower(scope, at, e);
            let n = elements@.len();
            let all = start(scope, at, elements@, n);
            let made = ArrayRef { id: (at + all) as usize, sized: true };
            let handled = 0 < n <= u32::MAX && constants(scope, at, elements@);
            &&& in_order(scope, at, elements@, n, code.steps)
            &&& n == 0 ==> code.location == e.location
            &&& n > 0 ==> code.location == nth(scope, at, elements@, (n - 1) as nat).location
            &&& handled ==> {
                &&& code.steps.len() == all + 1
                &&& code.steps[all as int].result == Some(BasicValue::Array(made))
                &&& code.steps[all as int].operation matches Operation::ConstArray {
                    elements: parts,
                }
                &&& parts.len() == n
                &&& forall|i: nat|
                    #![trigger nth(scope, at, elements@, i)]
                    i < n ==> whole_number(nth(scope, at, elements@, i).outcome->Done_0) == Some(
                        parts[i as int],
                    )
                &&& code.outcome == Outcome::Done(Value::Array { value: made })
            }
            &&& handled ==> typing(scope, e) == Ok::<Shape, Obstacle>(
                number_shape(ValueType::Array, BasicType::Array { sized: true }, false),
            )
            &&& !handled ==> {
                &&& code.steps.len() == all
                &&& code.outcome is Unsupported
                &&& typing(scope, e) == Err::<Shape, Obstacle>(Obstacle::Unsupported)
            }
        }),
{
    let n = elements@.len();
    lemma_list(scope, at, e, elements);
    lemma_elements(scope, at, e.location, elements@, n);
    let all = lower_elements(scope, at, e.location, elements@, n);
    let basics = all.outcome->Done_0;
    let values = Seq::new(n, |i: int| nth(scope, at, elements@, i as nat).outcome->Done_0);
    assert forall|i: int| 0 <= i < n implies held_as(#[trigger] values[i], basics[i]) by {
        assert(held_as(nth(scope, at, elements@, i as nat).outcome->Done_0, basics[i]));
    }
    lemma_makes_array(values, basics);
    assert(all_constant(values) == constants(scope, at, elements@)) by {
        if all_constant(values) {
            assert forall|i: nat| #![trigger nth(scope, at, elements@, i)] i < n implies {
                let first = whole_number(nth(scope, at, elements@, 0).outcome->Done_0)->0;
                &&& nth(scope, at, elements@, i).outcome matches Outcome::Done(value)
                &&& whole_number(value) matches Some(number)
                &&& number.constant
                &&& number.width == first.width
            } by {
                assert(values[i as int] == nth(scope, at, elements@, i).outcome->Done_0);
                assert(gives_something(nth(scope, at, elements@, i).outcome));
            }
        } else if constants(scope, at, elements@) {
            assert forall|i: int| 0 <= i < n implies {
                &&& whole_number(#[trigger] values[i]) matches Some(number)
                &&& number.constant
                &&& number.width == whole_number(values[0])->0.width
            } by {
                assert(values[i] == nth(scope, at, elements@, i as nat).outcome->Done_0);
            }
        }
    }
    let more = array(at + all.steps.len(), basics).steps;
    lemma_in_order(scope, at, elements@, n, all.steps, more);
    if makes_array(basics) {
        let parts = basics.map_values(|value: BasicValue| value->Int_0);
        assert forall|i: nat| #![trigger nth(scope, at, elements@, i)] i < n implies whole_number(
            nth(scope, at, elements@, i).outcome->Done_0,
        ) == Some(parts[i as int]) by {
            assert(held_as(nth(scope, at, elements@, i).outcome->Done_0, basics[i as int]));
            assert(basics[i as int] is Int);
        }
    }
}

/// Whether these are constant integers of the width of the first.
pub open spec fn all_constant(values: Seq<Value>) -> bool {
    forall|i: int|
        0 <= i < values.len() ==> {
            &&& whole_number(#[trigger] values[i]) matches Some(number)
            &&& number.constant
            &&& number.width == whole_number(values[0])->0.width
        }
}

/// Constant integers of one width can be the elements of an array, and nothing else.
proof fn lemma_makes_array(values: Seq<Value>, basics: Seq<BasicValue>)
    requires
        values.len() == basics.len(),
        forall|i: int| 0 <= i < values.len() ==> held_as(#[trigger] values[i], basics[i]),
    ensures
        makes_array(basics) == (0 < values.len() <= u32::MAX && all_constant(values)),
{
    if makes_array(basics) {
        assert forall|i: int| 0 <= i < values.len() implies {
            &&& whole_number(#[trigger] values[i]) matches Some(number)
            &&& number.constant
            &&& number.width == whole_number(values[0])->0.width
        } by {
            assert(basics[i] is Int);
            assert(basics[0] is Int);
            assert(held_as(values[0], basics[0]));
        }
    } else if 0 < values.len() <= u32::MAX && all_constant(values) {
        assert forall|i: int| 0 <= i < basics.len() implies {
            &&& #[trigger] basics[i] is Int
            &&& basics[i]->Int_0.constant
            &&& basics[i]->Int_0.width == basics[0]->Int_0.width
        } by {
            assert(held_as(values[i], basics[i]));
            assert(held_as(values[0], basics[0]));
        }
    }
}

/// A list lowers its elements and makes an array of them.
proof fn lemma_list(scope: Scope, at: nat, e: Expression, elements: Vec<Expression>)
    requires
        e.node == (ExpressionType::List { elements }) || e.node == (ExpressionType::Tuple {
            elements,
        }),
    ensures
        ({
            let all = lower_elements(scope, at, e.location, elements@, elements@.len());
            let code = lower(scope, at, e);
            &&& code.location == all.location
            &&& all.outcome matches Outcome::Done(parts) ==> {
                let more = array(at + all.steps.len(), parts);
                code.steps == all.steps + more.steps && code.outcome == more.outcome
            }
            &&& !(all.outcome is Done) ==> code.steps == all.steps
            &&& all.outcome matches Outcome::Failed(fault) ==> code.outcome
                == Outcome::<Value>::Failed(fault)
            &&& all.outcome is Unsupported ==> code.outcome is Unsupported
            &&& code.outcome is Unsupported ==> typing(scope, e) == Err::<Shape, Obstacle>(
                Obstacle::Unsupported,
            )
            &&& code.outcome matches Outcome::Done(Value::Array { value }) ==> typing(scope, e)
                == Ok::<Shape, Obstacle>(
                number_shape(
                    ValueType::Array,
                    BasicType::Array { sized: value.sized },
                    false,
                ),
            )
        }),
{
    reveal_with_fuel(lower, 2);
    reveal_with_fuel(crate::lowering::lower_list, 2);
    typing_foretells_lowering(scope, at, e);
}

/// The first element of a list that fails, or that is nothing, stops it there.
pub proof fn list_stops(scope: Scope, at: nat, e: Expression, elements: Vec<Expression>, k: nat)
    requires
        e.node == (ExpressionType::List { elements }) || e.node == (ExpressionType::Tuple {
            elements,
        }),
        k < elements@.len(),
        forall|i: nat|
            #![trigger nth(scope, at, elements@, i)]
            i < k ==> gives_something(nth(scope, at, elements@, i).outcome),
        !gives_something(nth(scope, at, elements@, k).outcome),
    ensures
        ({
            let code = lower(scope, at, e);
            let last = nth(scope, at, elements@, k);
            &&& code.steps.len() == start(scope, at, elements@, k + 1)
            &&& in_order(scope, at, elements@, k + 1, code.steps)
            &&& code.location == last.location
            &&& last.outcome matches Outcome::Failed(fault) ==> code.outcome
                == Outcome::<Value>::Failed(fault)
            &&& !(last.outcome is Failed) ==> code.outcome is Unsupported
        }),
{
    let before = lower_elements(scope, at, e.location, elements@, k);
    let all = lower_elements(scope, at, e.location, elements@, k + 1);
    lemma_list(scope, at, e, elements);
    lemma_elements(scope, at, e.location, elements@, k);
    lemma_one_more(scope, at, elements@, k, before.steps);
    lemma_next_stops(scope, at, e.location, elements@, k);
    lemma_elements_stop(scope, at, e.location, elements@, k, elements@.len());
}

/// An element that fails, or that is nothing, comes after those before it.
proof fn lemma_next_stops(
    scope: Scope,
    at: nat,
    location: Location,
    elements: Seq<Expression>,
    k: nat,
)
    requires
        k < elements.len(),
        lower_elements(scope, at, location, elements, k).outcome is Done,
        lower_elements(scope, at, location, elements, k).steps.len() == start(
            scope,
            at,
            elements,
            k,
        ),
        !gives_something(nth(scope, at, elements, k).outcome),
    ensures
        ({
            let before = lower_elements(scope, at, location, elements, k);
            let all = lower_elements(scope, at, location, elements, k + 1);
            let last = nth(scope, at, elements, k);
            &&& all.steps == before.steps + last.steps
            &&& all.location == last.location
            &&& last.outcome matches Outcome::Failed(fault) ==> all.outcome == Outcome::<
                Seq<BasicValue>,
            >::Failed(fault)
            &&& !(last.outcome is Failed) ==> all.outcome is Unsupported
        }),
{
}

} // verus!
