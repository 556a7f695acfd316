//! What can be told of an expression before any code is generated for it.
use crate::ast::{
    constant_text, Comparison, Expression, ExpressionType, Location, Number, Operator,
    UnaryOperator,
};
use crate::lowering::{
    argument, at_once, binary, both, call, comparison, float_operator, int_operator, int_predicate,
    lower, lower_arguments, lower_call, lower_comparison, lower_elements, lower_list, makes_array,
    result_type, shorter, Lowering, Outcome,
};
use crate::scope::Scope;
use crate::value::{
    definite, shape_of, stands_for, BasicType, BasicValue, Precision, Shape, Target, Value,
    ValueType,
};
use vstd::prelude::*;

verus! {

/// Why an expression has no value.
#[derive(Clone, Copy, Debug, PartialEq, Eq, Structural)]
pub enum Obstacle {
    /// Code generation fails with an error.
    Refused,
    /// Code generation does not handle the expression at all.
    Unsupported,
}

/// The shape of something that no LLVM value stands for.
pub open spec fn plain(value_type: ValueType) -> Shape {
    Shape { value_type, kind: None, constant: false }
}

/// The precision of a floating point number of this shape, or the one that an integer is converted
/// to.
pub open spec fn precision(shape: Shape) -> Precision {
    match shape.kind {
        Some(BasicType::Float { precision }) => precision,
        _ => Precision::Single,
    }
}

/// The shape of a floating point number.
pub open spec fn float_shape(precision: Precision, constant: bool) -> Shape {
    Shape { value_type: ValueType::F32, kind: Some(BasicType::Float { precision }), constant }
}

/// The shape of an integer of type `value_type`.
pub open spec fn int_shape(value_type: ValueType, width: u32, constant: bool) -> Shape {
    Shape { value_type, kind: Some(BasicType::Int { width }), constant }
}

/// Whether a value of this shape is an integer that operators take.
pub open spec fn is_int(shape: Shape) -> bool {
    shape.value_type is I8 || shape.value_type is I16
}

/// Whether a value of this shape is a floating point number.
pub open spec fn is_float(shape: Shape) -> bool {
    shape.value_type is F32
}

/// The shape of a string literal: a pointer to bytes.
pub open spec fn text_shape() -> Shape {
    shape_of(BasicType::Pointer { target: Target::Int { width: 8 } }, ValueType::Str)
}

/// The shape of a list or a tuple.
pub open spec fn array_shape() -> Shape {
    shape_of(BasicType::Array { sized: true }, ValueType::Array)
}

/// The shape of a number literal.
pub open spec fn number_typing(value: Number) -> Result<Shape, Obstacle> {
    match value {
        Number::Integer { .. } => Ok(int_shape(ValueType::I16, 16, true)),
        Number::Float { .. } => Ok(float_shape(Precision::Single, true)),
        Number::Complex { .. } => Err(Obstacle::Refused),
    }
}

/// The shape of a unary operator before `node`.
pub open spec fn unary_typing(op: UnaryOperator, node: ExpressionType) -> Result<Shape, Obstacle> {
    match node {
        ExpressionType::Number { value } => if op is Neg {
            number_typing(value)
        } else {
            Err(Obstacle::Refused)
        },
        _ => Err(Obstacle::Refused),
    }
}

/// The shape of what an operator makes of two operands: of two integers an integer, or for a
/// division a floating point number; with a floating point number among them another one.
pub open spec fn binary_typing(left: Shape, op: Operator, right: Shape) -> Result<Shape, Obstacle> {
    let constant = left.constant && right.constant;
    if is_int(left) && is_int(right) && !(op is Div) {
        if int_operator(op) is Some && left.kind == right.kind {
            Ok(Shape { value_type: ValueType::I16, kind: left.kind, constant })
        } else {
            Err(Obstacle::Unsupported)
        }
    } else if is_int(left) && is_int(right) {
        Ok(float_shape(Precision::Single, constant))
    } else if (is_int(left) || is_float(left)) && (is_int(right) || is_float(right)) {
        if float_operator(op) is Some && precision(left) == precision(right) {
            Ok(float_shape(precision(left), constant))
        } else {
            Err(Obstacle::Unsupported)
        }
    } else {
        Err(Obstacle::Unsupported)
    }
}

/// The shape of a comparison of two operands.
pub open spec fn comparison_typing(left: Shape, op: Comparison, right: Shape) -> Result<
    Shape,
    Obstacle,
> {
    let numbers = is_int(left) && is_int(right) || is_float(left) && is_float(right);
    if numbers && left.kind == right.kind && int_predicate(op) is Some {
        Ok(int_shape(ValueType::Bool, 1, left.constant && right.constant))
    } else {
        Err(Obstacle::Unsupported)
    }
}

/// Whether values of these shapes can be the elements of a constant array.
pub open spec fn shapes_make_array(shapes: Seq<Shape>) -> bool {
    &&& 0 < shapes.len() <= u32::MAX
    &&& forall|i: int|
        0 <= i < shapes.len() ==> {
            &&& is_int(#[trigger] shapes[i]) || shapes[i].value_type is Bool
            &&& shapes[i].constant
            &&& shapes[i].kind == shapes[0].kind
        }
}

/// Whether an argument of shape `shape` can be passed for a parameter of type `param`.
pub open spec fn argument_typing(shape: Shape, param: BasicType) -> Result<(), Obstacle> {
    let fits = match shape.value_type {
        ValueType::Bool | ValueType::I16 => match (shape.kind, param) {
            (Some(BasicType::Int { width: held }), BasicType::Int { width }) => width <= held,
            _ => false,
        },
        ValueType::I8 => param is Int,
        ValueType::F32 | ValueType::Str => shape.kind == Some(param) && definite(param),
        ValueType::Void | ValueType::Array => false,
    };
    if shape.value_type is Void || shape.value_type is Array {
        Err(Obstacle::Refused)
    } else if fits {
        Ok(())
    } else {
        Err(Obstacle::Unsupported)
    }
}

/// The shape of what a call gives, of a function whose result has type `kind`.
pub open spec fn result_typing(kind: Option<BasicType>) -> Result<Shape, Obstacle> {
    match result_type(kind) {
        Some(value_type) => match kind {
            Some(kind) => Ok(shape_of(kind, value_type)),
            None => Ok(plain(value_type)),
        },
        None => Err(Obstacle::Unsupported),
    }
}

/// The shape of the value of `e` in `scope`, or why it has none.
pub open spec fn typing(scope: Scope, e: Expression) -> Result<Shape, Obstacle>
    decreases e, 0nat,
{
    match e.node {
        ExpressionType::Number { value } => number_typing(value),
        ExpressionType::String { value } => if constant_text(value) is None {
            Err(Obstacle::Unsupported)
        } else if scope.function is None {
            Err(Obstacle::Refused)
        } else if scope.positioned {
            Ok(text_shape())
        } else {
            Err(Obstacle::Unsupported)
        },
        ExpressionType::Identifier { name } => match scope.load(name@) {
            Some(variable) => if scope.positioned && stands_for(
                variable.slot.pointee,
                variable.value_type,
            ) {
                Ok(shape_of(variable.slot.pointee, variable.value_type))
            } else {
                Err(Obstacle::Unsupported)
            },
            None => Err(Obstacle::Refused),
        },
        ExpressionType::Unop { op, a } => unary_typing(op, a.node),
        ExpressionType::True | ExpressionType::False => Ok(
            int_shape(ValueType::Bool, 1, true),
        ),
        ExpressionType::NoneConstant => Ok(plain(ValueType::Void)),
        ExpressionType::Binop { a, op, b } => match typing(scope, *a) {
            Ok(left) => match typing(scope, *b) {
                Ok(right) => binary_typing(left, op, right),
                Err(obstacle) => Err(obstacle),
            },
            Err(obstacle) => Err(obstacle),
        },
        ExpressionType::Compare { vals, ops } => compare_typing(scope, vals@, ops@),
        ExpressionType::BoolOp { .. } => Err(Obstacle::Unsupported),
        ExpressionType::List { elements } | ExpressionType::Tuple { elements } => list_typing(
            scope,
            elements@,
        ),
        ExpressionType::Call { function, args, keywords } => call_typing(scope, *function, args@),
        ExpressionType::Other { .. } => Err(Obstacle::Refused),
    }
}

/// The shape of a comparison.
pub open spec fn compare_typing(
    scope: Scope,
    vals: Seq<Expression>,
    ops: Seq<Comparison>,
) -> Result<Shape, Obstacle>
    decreases vals, 0nat,
{
    if ops.len() > 1 || vals.len() > 2 {
        Err(Obstacle::Refused)
    } else if vals.len() == 0 {
        Err(Obstacle::Unsupported)
    } else {
        match typing(scope, vals[0]) {
            Ok(left) => match typing(scope, vals[vals.len() - 1]) {
                Ok(right) => if ops.len() == 0 {
                    Err(Obstacle::Unsupported)
                } else {
                    comparison_typing(left, ops[0], right)
                },
                Err(obstacle) => Err(obstacle),
            },
            Err(obstacle) => Err(obstacle),
        }
    }
}

/// The shape of a list or a tuple.
pub open spec fn list_typing(scope: Scope, elements: Seq<Expression>) -> Result<Shape, Obstacle>
    decreases elements, elements.len() + 1,
{
    match element_typing(scope, elements, elements.len()) {
        Ok(shapes) => if shapes_make_array(shapes) {
            Ok(array_shape())
        } else {
            Err(Obstacle::Unsupported)
        },
        Err(obstacle) => Err(obstacle),
    }
}

/// The shape of a call.
pub open spec fn call_typing(
    scope: Scope,
    function: Expression,
    args: Seq<Expression>,
) -> Result<Shape, Obstacle>
    decreases args, args.len() + 1,
{
    match function.node {
        ExpressionType::Identifier { name } => {
            let first = if args.len() == 0 {
                Ok(plain(ValueType::Void))
            } else {
                typing(scope, args[0])
            };
            match first {
                Ok(shape) => match scope.resolve(name@, shape.value_type) {
                    Some(symbol) => if !scope.functions[symbol].known {
                        Err(Obstacle::Unsupported)
                    } else {
                        let signature = scope.functions[symbol];
                        let params = signature.params;
                        let n = shorter(args.len(), params.len());
                        match arguments_typing(scope, shape, args, params, n) {
                            Ok(_) => if args.len() < params.len() {
                                Err(Obstacle::Unsupported)
                            } else {
                                result_typing(signature.result)
                            },
                            Err(obstacle) => Err(obstacle),
                        }
                    },
                    None => Err(Obstacle::Refused),
                },
                Err(obstacle) => Err(obstacle),
            }
        },
        _ => Err(Obstacle::Refused),
    }
}

/// The shapes of the first `n` elements of a list.
pub open spec fn element_typing(scope: Scope, elements: Seq<Expression>, n: nat) -> Result<
    Seq<Shape>,
    Obstacle,
>
    decreases elements, n,
{
    if n == 0 || n > elements.len() {
        Ok(Seq::empty())
    } else {
        match element_typing(scope, elements, (n - 1) as nat) {
            Ok(shapes) => match typing(scope, elements[n - 1]) {
                Ok(shape) => if shape.value_type is Void {
                    Err(Obstacle::Unsupported)
                } else {
                    Ok(shapes.push(shape))
                },
                Err(obstacle) => Err(obstacle),
            },
            Err(obstacle) => Err(obstacle),
        }
    }
}

/// Whether the first `n` arguments of a call can be passed, the first of them having the shape
/// `first`.
pub open spec fn arguments_typing(
    scope: Scope,
    first: Shape,
    args: Seq<Expression>,
    params: Seq<BasicType>,
    n: nat,
) -> Result<(), Obstacle>
    decreases args, n,
{
    if n == 0 || n > args.len() {
        Ok(())
    } else {
        match arguments_typing(scope, first, args, params, (n - 1) as nat) {
            Ok(_) => match (if n == 1 {
                Ok(first)
            } else {
                typing(scope, args[n - 1])
            }) {
                Ok(shape) => argument_typing(shape, params[n - 1]),
                Err(obstacle) => Err(obstacle),
            },
            Err(obstacle) => Err(obstacle),
        }
    }
}

/// The shape of an outcome.
pub open spec fn outcome_shape(outcome: Outcome<Value>) -> Result<Shape, Obstacle> {
    match outcome {
        Outcome::Done(value) => Ok(value.shape()),
        Outcome::Failed(_) => Err(Obstacle::Refused),
        Outcome::Unsupported => Err(Obstacle::Unsupported),
    }
}

/// The shape that stands in a list for `value`.
pub open spec fn same_basic(value: BasicValue, shape: Shape) -> bool {
    match value {
        BasicValue::Int(number) => {
            &&& is_int(shape) || shape.value_type is Bool
            &&& number.constant == shape.constant
            &&& shape.kind == Some(BasicType::Int { width: number.width })
        },
        _ => !is_int(shape) && !(shape.value_type is Bool),
    }
}

/// Operators make what `binary_typing` tells.
proof fn binary_foretold(at: nat, left: Value, op: Operator, right: Value)
    ensures
        outcome_shape(binary(at, left, op, right).outcome) == binary_typing(
            left.shape(),
            op,
            right.shape(),
        ),
{
}

/// Comparisons make what `comparison_typing` tells.
proof fn comparison_foretold(at: nat, left: Value, op: Comparison, right: Value)
    ensures
        outcome_shape(comparison(at, left, op, right).outcome) == comparison_typing(
            left.shape(),
            op,
            right.shape(),
        ),
{
}

/// Arguments are converted as `argument_typing` tells.
proof fn argument_foretold(at: nat, value: Value, param: BasicType)
    ensures
        (match (argument_typing(value.shape(), param), argument(at, value, param).outcome) {
            (Ok(_), Outcome::Done(_)) => true,
            (Err(Obstacle::Refused), Outcome::Failed(_)) => true,
            (Err(Obstacle::Unsupported), Outcome::Unsupported) => true,
            _ => false,
        }),
{
}

/// What comes of the expressions that have no parts to lower.
proof fn leaf_foretold(scope: Scope, at: nat, e: Expression)
    requires
        !(e.node is Binop),
        !(e.node is Compare),
        !(e.node is List),
        !(e.node is Tuple),
        !(e.node is Call),
    ensures
        typing(scope, e) == outcome_shape(lower(scope, at, e).outcome),
{
}

/// What `typing` tells of an expression is what comes of lowering it, wherever its code goes: the
/// shape of the value if there is one, and else whether it fails or is not handled at all.
pub proof fn typing_foretells_lowering(scope: Scope, at: nat, e: Expression)
    ensures
        typing(scope, e) == outcome_shape(lower(scope, at, e).outcome),
    decreases e, 0nat,
{
    match e.node {
        ExpressionType::Binop { a, op, b } => {
            let left = lower(scope, at, *a);
            let right = lower(scope, at + left.steps.len(), *b);
            typing_foretells_lowering(scope, at, *a);
            typing_foretells_lowering(scope, at + left.steps.len(), *b);
            if let (Outcome::Done(x), Outcome::Done(y)) = (left.outcome, right.outcome) {
                binary_foretold(at + both(left, right).steps.len(), x, op, y);
            }
        },
        ExpressionType::Compare { vals, ops } => {
            comparison_lowering_foretold(scope, at, e.location, vals@, ops@);
        },
        ExpressionType::List { elements } | ExpressionType::Tuple { elements } => {
            list_foretold(scope, at, e.location, elements@);
        },
        ExpressionType::Call { function, args, keywords } => {
            call_foretold(scope, at, e.location, *function, args@);
        },
        _ => {
            leaf_foretold(scope, at, e);
        },
    }
}

/// The same of a comparison.
proof fn comparison_lowering_foretold(
    scope: Scope,
    at: nat,
    location: Location,
    vals: Seq<Expression>,
    ops: Seq<Comparison>,
)
    ensures
        compare_typing(scope, vals, ops) == outcome_shape(
            lower_comparison(scope, at, location, vals, ops).outcome,
        ),
    decreases vals, 0nat,
{
    if ops.len() <= 1 && 0 < vals.len() <= 2 {
        let last = vals[vals.len() - 1];
        let left = lower(scope, at, vals[0]);
        let right = lower(scope, at + left.steps.len(), last);
        typing_foretells_lowering(scope, at, vals[0]);
        typing_foretells_lowering(scope, at + left.steps.len(), last);
        if let (Outcome::Done(x), Outcome::Done(y)) = (left.outcome, right.outcome) {
            if ops.len() == 1 {
                comparison_foretold(at + both(left, right).steps.len(), x, ops[0], y);
            }
        }
    }
}

/// The same of a list.
proof fn list_foretold(scope: Scope, at: nat, location: Location, elements: Seq<Expression>)
    ensures
        list_typing(scope, elements) == outcome_shape(
            lower_list(scope, at, location, elements).outcome,
        ),
    decreases elements, elements.len() + 1,
{
    let n = elements.len();
    elements_foretold(scope, at, location, elements, n);
    let lowered = lower_elements(scope, at, location, elements, n);
    if let (Ok(shapes), Outcome::Done(values)) = (
        element_typing(scope, elements, n),
        lowered.outcome,
    ) {
        assert(shapes_make_array(shapes) == makes_array(values)) by {
            assert forall|i: int| 0 <= i < n implies same_basic(
                #[trigger] values[i],
                #[trigger] shapes[i],
            ) by {}
            if shapes_make_array(shapes) {
                assert forall|i: int| 0 <= i < values.len() implies {
                    &&& #[trigger] values[i] is Int
                    &&& values[i]->Int_0.constant
                    &&& values[i]->Int_0.width == values[0]->Int_0.width
                } by {
                    assert(same_basic(values[i], shapes[i]));
                    assert(same_basic(values[0], shapes[0]));
                }
            }
            if makes_array(values) {
                assert forall|i: int| 0 <= i < shapes.len() implies {
                    &&& is_int(#[trigger] shapes[i]) || shapes[i].value_type is Bool
                    &&& shapes[i].constant
                    &&& shapes[i].kind == shapes[0].kind
                } by {
                    assert(same_basic(values[i], shapes[i]));
                    assert(same_basic(values[0], shapes[0]));
                }
            }
        }
    }
}

/// The same of a call.
proof fn call_foretold(
    scope: Scope,
    at: nat,
    location: Location,
    function: Expression,
    args: Seq<Expression>,
)
    ensures
        call_typing(scope, function, args) == outcome_shape(
            lower_call(scope, at, location, function, args).outcome,
        ),
    decreases args, args.len() + 1,
{
    if let ExpressionType::Identifier { name } = function.node {
        let first = if args.len() == 0 {
            at_once(location, Outcome::Done(Value::Void))
        } else {
            lower(scope, at, args[0])
        };
        if args.len() > 0 {
            typing_foretells_lowering(scope, at, args[0]);
        }
        if let Outcome::Done(value) = first.outcome {
            if let Some(symbol) = scope.resolve(name@, value.value_type()) {
                let params = scope.functions[symbol].params;
                let n = shorter(args.len(), params.len());
                arguments_foretold(scope, at, first, value, args, params, n);
                let passed = lower_arguments(scope, at, first, value, args, params, n);
                if let Outcome::Done(arguments) = passed.outcome {
                    call_result_foretold(scope, at + passed.steps.len(), symbol, arguments);
                }
            }
        }
    }
}

/// A call gives what `result_typing` tells.
proof fn call_result_foretold(
    scope: Scope,
    at: nat,
    symbol: Seq<char>,
    arguments: Seq<BasicValue>,
)
    ensures
        outcome_shape(call(scope, at, symbol, arguments).outcome) == (if arguments.len()
            != scope.functions[symbol].params.len() {
            Err(Obstacle::Unsupported)
        } else {
            result_typing(scope.functions[symbol].result)
        }),
{
}

/// The same of the elements of a list.
proof fn elements_foretold(
    scope: Scope,
    at: nat,
    location: Location,
    elements: Seq<Expression>,
    n: nat,
)
    requires
        n <= elements.len(),
    ensures
        (match (
            element_typing(scope, elements, n),
            lower_elements(scope, at, location, elements, n).outcome,
        ) {
            (Ok(shapes), Outcome::Done(values)) => {
                &&& shapes.len() == n
                &&& values.len() == n
                &&& forall|i: int|
                    0 <= i < n ==> same_basic(#[trigger] values[i], #[trigger] shapes[i])
            },
            (Err(Obstacle::Refused), Outcome::Failed(_)) => true,
            (Err(Obstacle::Unsupported), Outcome::Unsupported) => true,
            _ => false,
        }),
    decreases elements, n,
{
    if n > 0 {
        elements_foretold(scope, at, location, elements, (n - 1) as nat);
        let before = lower_elements(scope, at, location, elements, (n - 1) as nat);
        typing_foretells_lowering(scope, at + before.steps.len(), elements[n - 1]);
    }
}

/// The same of the arguments of a call.
proof fn arguments_foretold(
    scope: Scope,
    at: nat,
    first: Lowering<Value>,
    value: Value,
    args: Seq<Expression>,
    params: Seq<BasicType>,
    n: nat,
)
    requires
        n <= args.len(),
    ensures
        (match (
            arguments_typing(scope, value.shape(), args, params, n),
            lower_arguments(scope, at, first, value, args, params, n).outcome,
        ) {
            (Ok(_), Outcome::Done(values)) => values.len() == n,
            (Err(Obstacle::Refused), Outcome::Failed(_)) => true,
            (Err(Obstacle::Unsupported), Outcome::Unsupported) => true,
            _ => false,
        }),
    decreases args, n,
{
    if n > 0 {
        arguments_foretold(scope, at, first, value, args, params, (n - 1) as nat);
        let before = lower_arguments(scope, at, first, value, args, params, (n - 1) as nat);
        let lowered = if n == 1 {
            at_once(before.location, Outcome::Done(value))
        } else {
            lower(scope, at + before.steps.len(), args[n - 1])
        };
        if n > 1 {
            typing_foretells_lowering(scope, at + before.steps.len(), args[n - 1]);
        }
        if let Outcome::Done(value) = lowered.outcome {
            let steps = before.steps + lowered.steps;
            argument_foretold(at + steps.len(), value, params[n - 1]);
        }
    }
}

} // verus!
