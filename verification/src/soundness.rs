//! That the generated code is code that LLVM takes.
use crate::ast::{
    Comparison, Expression, ExpressionType, Location, Number, Operator, StringGroup, UnaryOperator,
};
use crate::ir::{defined, loadable, slot_defined, value_defined, Operation, Signature, Step};
use crate::lowering::{
    argument, array, at_once, binary, bool_literal, both, call, comparison, identifier, lower,
    lower_arguments, lower_call, lower_comparison, lower_elements, lower_list,
    lower_operator, number, shorter,
    string, unary, Emission, Lowering, Outcome,
};
use crate::scope::{variables_defined, Scope};
use crate::value::{definite, BasicType, BasicValue, IntRef, Precision, Target, Value};
use vstd::prelude::*;

verus! {

/// The values that an operation takes.
pub open spec fn operands(operation: Operation) -> Seq<BasicValue> {
    match operation {
        Operation::ConstInt { .. } => seq![],
        Operation::ConstFloat { .. } => seq![],
        Operation::ConstArray { elements } => elements.map_values(
            |element: IntRef| BasicValue::Int(element),
        ),
        Operation::ConstSignedToFloat { value } => seq![BasicValue::Int(value)],
        Operation::Slot { .. } => seq![],
        Operation::GlobalString { .. } => seq![],
        Operation::Load { pointer, .. } => seq![BasicValue::Pointer(pointer)],
        Operation::SignedToFloat { value, .. } => seq![BasicValue::Int(value)],
        Operation::IntTruncate { value, .. } => seq![BasicValue::Int(value)],
        Operation::IntCast { value, .. } => seq![BasicValue::Int(value)],
        Operation::IntMath { lhs, rhs, .. } => seq![BasicValue::Int(lhs), BasicValue::Int(rhs)],
        Operation::FloatMath { lhs, rhs, .. } => seq![
            BasicValue::Float(lhs),
            BasicValue::Float(rhs),
        ],
        Operation::IntCompare { lhs, rhs, .. } => seq![BasicValue::Int(lhs), BasicValue::Int(rhs)],
        Operation::FloatCompare { lhs, rhs, .. } => seq![
            BasicValue::Float(lhs),
            BasicValue::Float(rhs),
        ],
        Operation::Call { arguments, .. } => arguments,
    }
}

/// Whether `arguments` have the types of `params`, told exactly.
pub open spec fn arguments_fit(arguments: Seq<BasicValue>, params: Seq<BasicType>) -> bool {
    forall|i: int|
        0 <= i < arguments.len() ==> {
            &&& (#[trigger] arguments[i]).kind() == params[i]
            &&& definite(params[i])
        }
}

/// Whether the operands of an operation have the types that LLVM asks for. What a load asks for is
/// told by [`result_kind`].
pub open spec fn operands_fit(
    functions: Map<Seq<char>, Signature>,
    operation: Operation,
) -> bool {
    match operation {
        Operation::ConstArray { elements } => {
            &&& 0 < elements.len() <= u32::MAX
            &&& forall|i: int|
                0 <= i < elements.len() ==> {
                    &&& (#[trigger] elements[i]).constant
                    &&& elements[i].width == elements[0].width
                }
        },
        Operation::ConstSignedToFloat { value } => value.constant,
        Operation::IntTruncate { value, width, .. } => width <= value.width,
        Operation::IntMath { lhs, rhs, .. } => lhs.width == rhs.width,
        Operation::FloatMath { lhs, rhs, .. } => lhs.precision == rhs.precision,
        Operation::IntCompare { lhs, rhs, .. } => lhs.width == rhs.width,
        Operation::FloatCompare { lhs, rhs, .. } => lhs.precision == rhs.precision,
        Operation::Call { function, arguments, .. } => {
            &&& functions.contains_key(function)
            &&& arguments.len() == functions[function].params.len()
            &&& arguments_fit(arguments, functions[function].params)
        },
        Operation::ConstInt { .. } | Operation::ConstFloat { .. } => true,
        Operation::Slot { .. } | Operation::GlobalString { .. } => true,
        Operation::Load { .. } => true,
        Operation::SignedToFloat { .. } | Operation::IntCast { .. } => true,
    }
}

/// The type of what comes of an operation after `steps`, if anything does.
pub open spec fn result_kind(
    functions: Map<Seq<char>, Signature>,
    steps: Seq<Step>,
    operation: Operation,
) -> Option<BasicType> {
    match operation {
        Operation::ConstInt { width, .. } => Some(BasicType::Int { width }),
        Operation::ConstFloat { .. } => Some(BasicType::Float { precision: Precision::Single }),
        Operation::ConstArray { .. } => Some(BasicType::Array { sized: true }),
        Operation::ConstSignedToFloat { .. } => Some(
            BasicType::Float { precision: Precision::Single },
        ),
        Operation::Slot { target, .. } => Some(BasicType::Pointer { target }),
        Operation::GlobalString { .. } => Some(
            BasicType::Pointer { target: Target::Int { width: 8 } },
        ),
        Operation::Load { pointer, .. } => match steps[pointer.id as int].operation {
            Operation::Slot { pointee, .. } => if loadable(pointee) {
                Some(pointee)
            } else {
                None
            },
            _ => None,
        },
        Operation::SignedToFloat { .. } => Some(BasicType::Float { precision: Precision::Single }),
        Operation::IntTruncate { width, .. } => Some(BasicType::Int { width }),
        Operation::IntCast { width, .. } => Some(BasicType::Int { width }),
        Operation::IntMath { lhs, .. } => Some(BasicType::Int { width: lhs.width }),
        Operation::FloatMath { lhs, .. } => Some(BasicType::Float { precision: lhs.precision }),
        Operation::IntCompare { .. } => Some(BasicType::Int { width: 1 }),
        Operation::FloatCompare { .. } => Some(BasicType::Int { width: 1 }),
        Operation::Call { function, .. } => functions[function].result,
    }
}

/// Whether `step` can be taken after `steps`: it takes values that they gave, of the types that
/// LLVM asks for, and what it gives is numbered next and has the type that LLVM gives it.
pub open spec fn step_fits(
    functions: Map<Seq<char>, Signature>,
    steps: Seq<Step>,
    step: Step,
) -> bool {
    &&& forall|i: int|
        0 <= i < operands(step.operation).len() ==> defined(
            steps,
            #[trigger] operands(step.operation)[i],
        )
    &&& operands_fit(functions, step.operation)
    &&& match (step.result, result_kind(functions, steps, step.operation)) {
        (Some(result), Some(kind)) => result.spec_id() == steps.len() && result.kind() == kind,
        (None, None) => true,
        _ => false,
    }
}

/// Whether each step can be taken after those before it.
pub open spec fn well_formed(functions: Map<Seq<char>, Signature>, steps: Seq<Step>) -> bool {
    forall|i: int|
        0 <= i < steps.len() ==> step_fits(functions, steps.take(i), #[trigger] steps[i])
}

/// Whether the steps of `emission` can be taken after `steps` and give its value.
pub open spec fn emission_fits(
    functions: Map<Seq<char>, Signature>,
    steps: Seq<Step>,
    emission: Emission<Value>,
) -> bool {
    &&& well_formed(functions, steps + emission.steps)
    &&& emission.outcome matches Outcome::Done(value) ==> value_defined(
        steps + emission.steps,
        value,
    )
}

/// One more step.
proof fn lemma_one_more(functions: Map<Seq<char>, Signature>, steps: Seq<Step>, step: Step)
    requires
        well_formed(functions, steps),
        step_fits(functions, steps, step),
    ensures
        well_formed(functions, steps.push(step)),
{
    let more = steps.push(step);
    assert forall|i: int| 0 <= i < more.len() implies step_fits(
        functions,
        more.take(i),
        #[trigger] more[i],
    ) by {
        if i < steps.len() {
            assert(more.take(i) =~= steps.take(i));
            assert(more[i] == steps[i]);
        } else {
            assert(more.take(i) =~= steps);
        }
    }
}

/// An emission of no steps that gives no value.
proof fn lemma_no_steps(
    functions: Map<Seq<char>, Signature>,
    steps: Seq<Step>,
    emission: Emission<Value>,
)
    requires
        well_formed(functions, steps),
        emission.steps.len() == 0,
        !(emission.outcome is Done),
    ensures
        emission_fits(functions, steps, emission),
{
    assert(steps + emission.steps =~= steps);
}

/// An emission of one step.
proof fn lemma_one_step(
    functions: Map<Seq<char>, Signature>,
    steps: Seq<Step>,
    emission: Emission<Value>,
    step: Step,
)
    requires
        well_formed(functions, steps),
        emission.steps == seq![step],
        step_fits(functions, steps, step),
        emission.outcome matches Outcome::Done(value) && match value.basic() {
            Some(basic) => step.result == Some(basic),
            None => true,
        },
    ensures
        emission_fits(functions, steps, emission),
{
    lemma_one_more(functions, steps, step);
    assert(steps + emission.steps =~= steps.push(step));
}

/// The number literals.
proof fn lemma_number(functions: Map<Seq<char>, Signature>, steps: Seq<Step>, value: Number)
    requires
        well_formed(functions, steps),
        steps.len() + number(steps.len(), value).steps.len() <= usize::MAX,
    ensures
        emission_fits(functions, steps, number(steps.len(), value)),
{
    let emission = number(steps.len(), value);
    if emission.outcome is Done {
        lemma_one_step(functions, steps, emission, emission.steps[0]);
    } else {
        lemma_no_steps(functions, steps, emission);
    }
}

/// The unary operators.
proof fn lemma_unary(
    functions: Map<Seq<char>, Signature>,
    steps: Seq<Step>,
    op: UnaryOperator,
    node: ExpressionType,
)
    requires
        well_formed(functions, steps),
        steps.len() + unary(steps.len(), op, node).steps.len() <= usize::MAX,
    ensures
        emission_fits(functions, steps, unary(steps.len(), op, node)),
{
    let emission = unary(steps.len(), op, node);
    if emission.outcome is Done {
        lemma_one_step(functions, steps, emission, emission.steps[0]);
    } else {
        lemma_no_steps(functions, steps, emission);
    }
}

/// `True` and `False`.
proof fn lemma_bool(functions: Map<Seq<char>, Signature>, steps: Seq<Step>, truth: bool)
    requires
        well_formed(functions, steps),
        steps.len() < usize::MAX,
    ensures
        emission_fits(functions, steps, bool_literal(steps.len(), truth)),
{
    let emission = bool_literal(steps.len(), truth);
    lemma_one_step(functions, steps, emission, emission.steps[0]);
}

/// The string literals.
proof fn lemma_string(scope: Scope, steps: Seq<Step>, group: StringGroup)
    requires
        well_formed(scope.functions, steps),
        steps.len() + string(scope, steps.len(), group).steps.len() <= usize::MAX,
    ensures
        emission_fits(scope.functions, steps, string(scope, steps.len(), group)),
{
    let emission = string(scope, steps.len(), group);
    if emission.outcome is Done {
        lemma_one_step(scope.functions, steps, emission, emission.steps[0]);
    } else {
        lemma_no_steps(scope.functions, steps, emission);
    }
}

/// The names of variables.
proof fn lemma_identifier(scope: Scope, steps: Seq<Step>, name: Seq<char>)
    requires
        well_formed(scope.functions, steps),
        variables_defined(scope, steps),
        steps.len() + identifier(scope, steps.len(), name).steps.len() <= usize::MAX,
    ensures
        emission_fits(scope.functions, steps, identifier(scope, steps.len(), name)),
{
    let emission = identifier(scope, steps.len(), name);
    if emission.outcome is Done {
        let step = emission.steps[0];
        let variable = scope.load(name)->0;
        assert(slot_defined(steps, variable.slot));
        assert(operands(step.operation) == seq![BasicValue::Pointer(variable.slot.pointer)]);
        lemma_one_step(scope.functions, steps, emission, step);
    } else {
        lemma_no_steps(scope.functions, steps, emission);
    }
}

/// Two numbers combined.
proof fn lemma_binary(
    functions: Map<Seq<char>, Signature>,
    steps: Seq<Step>,
    left: Value,
    op: Operator,
    right: Value,
)
    requires
        well_formed(functions, steps),
        value_defined(steps, left),
        value_defined(steps, right),
        steps.len() + binary(steps.len(), left, op, right).steps.len() <= usize::MAX,
    ensures
        emission_fits(functions, steps, binary(steps.len(), left, op, right)),
{
    let emission = binary(steps.len(), left, op, right);
    if !(emission.outcome is Done) {
        lemma_no_steps(functions, steps, emission);
    } else if emission.steps.len() == 1 {
        lemma_one_step(functions, steps, emission, emission.steps[0]);
    } else {
        let one = steps.push(emission.steps[0]);
        lemma_one_more(functions, steps, emission.steps[0]);
        let two = one.push(emission.steps[1]);
        lemma_one_more(functions, one, emission.steps[1]);
        if emission.steps.len() == 2 {
            assert(steps + emission.steps =~= two);
        } else {
            lemma_one_more(functions, two, emission.steps[2]);
            assert(steps + emission.steps =~= two.push(emission.steps[2]));
        }
    }
}

/// Two numbers compared.
proof fn lemma_comparison(
    functions: Map<Seq<char>, Signature>,
    steps: Seq<Step>,
    left: Value,
    op: Comparison,
    right: Value,
)
    requires
        well_formed(functions, steps),
        value_defined(steps, left),
        value_defined(steps, right),
        steps.len() + comparison(steps.len(), left, op, right).steps.len() <= usize::MAX,
    ensures
        emission_fits(functions, steps, comparison(steps.len(), left, op, right)),
{
    let emission = comparison(steps.len(), left, op, right);
    if emission.outcome is Done {
        lemma_one_step(functions, steps, emission, emission.steps[0]);
    } else {
        lemma_no_steps(functions, steps, emission);
    }
}

/// Whether all of `values` came of `steps`.
pub open spec fn all_defined(steps: Seq<Step>, values: Seq<BasicValue>) -> bool {
    forall|i: int| 0 <= i < values.len() ==> defined(steps, #[trigger] values[i])
}

/// Arrays.
proof fn lemma_array(
    functions: Map<Seq<char>, Signature>,
    steps: Seq<Step>,
    values: Seq<BasicValue>,
)
    requires
        well_formed(functions, steps),
        all_defined(steps, values),
        steps.len() + array(steps.len(), values).steps.len() <= usize::MAX,
    ensures
        emission_fits(functions, steps, array(steps.len(), values)),
{
    let emission = array(steps.len(), values);
    if emission.outcome is Done {
        let step = emission.steps[0];
        let elements = values.map_values(|value: BasicValue| value->Int_0);
        assert(step.operation == Operation::ConstArray { elements });
        assert forall|i: int| 0 <= i < operands(step.operation).len() implies defined(
            steps,
            #[trigger] operands(step.operation)[i],
        ) by {
            assert(operands(step.operation)[i] == values[i]);
        }
        assert forall|i: int| 0 <= i < elements.len() implies {
            &&& (#[trigger] elements[i]).constant
            &&& elements[i].width == elements[0].width
        } by {
            assert(elements[i] == values[i]->Int_0);
            assert(elements[0] == values[0]->Int_0);
        }
        lemma_one_step(functions, steps, emission, step);
    } else {
        lemma_no_steps(functions, steps, emission);
    }
}

/// The conversion of an argument.
proof fn lemma_argument(
    functions: Map<Seq<char>, Signature>,
    steps: Seq<Step>,
    value: Value,
    param: BasicType,
)
    requires
        well_formed(functions, steps),
        value_defined(steps, value),
        steps.len() + argument(steps.len(), value, param).steps.len() <= usize::MAX,
    ensures
        ({
            let emission = argument(steps.len(), value, param);
            &&& well_formed(functions, steps + emission.steps)
            &&& emission.outcome matches Outcome::Done(passed) ==> {
                &&& defined(steps + emission.steps, passed)
                &&& passed.kind() == param
                &&& definite(param)
            }
        }),
{
    let emission = argument(steps.len(), value, param);
    if emission.steps.len() == 0 {
        assert(steps + emission.steps =~= steps);
    } else {
        lemma_one_more(functions, steps, emission.steps[0]);
        assert(steps + emission.steps =~= steps.push(emission.steps[0]));
    }
}

/// Calls.
proof fn lemma_call(
    scope: Scope,
    steps: Seq<Step>,
    symbol: Seq<char>,
    arguments: Seq<BasicValue>,
)
    requires
        well_formed(scope.functions, steps),
        scope.functions.contains_key(symbol),
        all_defined(steps, arguments),
        arguments_fit(arguments, scope.functions[symbol].params),
        steps.len() + call(scope, steps.len(), symbol, arguments).steps.len() <= usize::MAX,
    ensures
        emission_fits(scope.functions, steps, call(scope, steps.len(), symbol, arguments)),
{
    let emission = call(scope, steps.len(), symbol, arguments);
    if emission.outcome is Done {
        let step = emission.steps[0];
        assert(operands(step.operation) == arguments);
        lemma_one_step(scope.functions, steps, emission, step);
    } else {
        lemma_no_steps(scope.functions, steps, emission);
    }
}

/// Whether the steps of `lowering` can be taken after `steps` and give its value.
pub open spec fn lowering_fits(
    functions: Map<Seq<char>, Signature>,
    steps: Seq<Step>,
    lowering: Lowering<Value>,
) -> bool {
    &&& well_formed(functions, steps + lowering.steps)
    &&& lowering.outcome matches Outcome::Done(value) ==> value_defined(
        steps + lowering.steps,
        value,
    )
}

/// Variables stay where they are.
proof fn lemma_variables_stay(scope: Scope, steps: Seq<Step>, more: Seq<Step>)
    requires
        variables_defined(scope, steps),
    ensures
        variables_defined(scope, steps + more),
{
    assert forall|key: (Option<Seq<char>>, Seq<char>)| #[trigger]
        scope.variables.contains_key(key) implies slot_defined(
        steps + more,
        scope.variables[key].slot,
    ) by {
        assert(slot_defined(steps, scope.variables[key].slot));
    }
}

/// A value stays what it is.
proof fn lemma_value_stays(steps: Seq<Step>, more: Seq<Step>, value: Value)
    requires
        value_defined(steps, value),
    ensures
        value_defined(steps + more, value),
{
}

/// The code of every expression is code that LLVM takes: put after well-formed code that took up
/// the places of the variables, it leaves the whole well-formed. Each step takes only values that
/// earlier steps gave, of the types that LLVM asks for; the value of the expression is one that
/// the code gives. So it is also if code generation fails on the way.
pub proof fn code_is_well_formed(scope: Scope, steps: Seq<Step>, e: Expression)
    requires
        well_formed(scope.functions, steps),
        variables_defined(scope, steps),
        steps.len() + lower(scope, steps.len(), e).steps.len() <= usize::MAX,
    ensures
        lowering_fits(scope.functions, steps, lower(scope, steps.len(), e)),
    decreases e, 1nat,
{
    match e.node {
        ExpressionType::Binop { a, op, b } => {
            operator_well_formed(scope, steps, *a, op, *b, e);
        },
        ExpressionType::Compare { vals, ops } => {
            comparison_well_formed(scope, steps, e.location, vals@, ops@);
        },
        ExpressionType::List { elements } | ExpressionType::Tuple { elements } => {
            list_well_formed(scope, steps, e.location, elements@);
        },
        ExpressionType::Call { function, args, keywords } => {
            call_well_formed(scope, steps, e.location, *function, args@);
        },
        _ => {
            leaf_well_formed(scope, steps, e);
        },
    }
}

/// The same of an expression that has no parts to lower.
proof fn leaf_well_formed(scope: Scope, steps: Seq<Step>, e: Expression)
    requires
        well_formed(scope.functions, steps),
        variables_defined(scope, steps),
        steps.len() + lower(scope, steps.len(), e).steps.len() <= usize::MAX,
        !(e.node is Binop),
        !(e.node is Compare),
        !(e.node is List),
        !(e.node is Tuple),
        !(e.node is Call),
    ensures
        lowering_fits(scope.functions, steps, lower(scope, steps.len(), e)),
{
    let at = steps.len();
    let lowering = lower(scope, at, e);
    match e.node {
        ExpressionType::Number { value } => {
            lemma_number(scope.functions, steps, value);
            assert(lowering.steps =~= number(at, value).steps);
        },
        ExpressionType::String { value } => {
            lemma_string(scope, steps, value);
            assert(lowering.steps =~= string(scope, at, value).steps);
        },
        ExpressionType::Identifier { name } => {
            lemma_identifier(scope, steps, name@);
            assert(lowering.steps =~= identifier(scope, at, name@).steps);
        },
        ExpressionType::Unop { op, a } => {
            lemma_unary(scope.functions, steps, op, a.node);
            assert(lowering.steps =~= unary(at, op, a.node).steps);
        },
        ExpressionType::True => {
            lemma_bool(scope.functions, steps, true);
            assert(lowering.steps =~= bool_literal(at, true).steps);
        },
        ExpressionType::False => {
            lemma_bool(scope.functions, steps, false);
            assert(lowering.steps =~= bool_literal(at, false).steps);
        },
        _ => {
            assert(steps + lowering.steps =~= steps);
        },
    }
}

/// The same of a binary operator between parts of `whole`.
proof fn operator_well_formed(
    scope: Scope,
    steps: Seq<Step>,
    a: Expression,
    op: Operator,
    b: Expression,
    whole: Expression,
)
    requires
        well_formed(scope.functions, steps),
        variables_defined(scope, steps),
        steps.len() + lower_operator(scope, steps.len(), a, op, b).steps.len() <= usize::MAX,
        decreases_to!(whole => a),
        decreases_to!(whole => b),
    ensures
        lowering_fits(scope.functions, steps, lower_operator(scope, steps.len(), a, op, b)),
    decreases whole, 0nat,
{
    let lowering = lower_operator(scope, steps.len(), a, op, b);
    let left = lower(scope, steps.len(), a);
    code_is_well_formed(scope, steps, a);
    if let Outcome::Done(x) = left.outcome {
        let middle = steps + left.steps;
        let right = lower(scope, middle.len(), b);
        lemma_variables_stay(scope, steps, left.steps);
        code_is_well_formed(scope, middle, b);
        lemma_value_stays(middle, right.steps, x);
        let before = steps + both(left, right).steps;
        assert(middle + right.steps =~= before);
        if let Outcome::Done(y) = right.outcome {
            lemma_binary(scope.functions, before, x, op, y);
            assert(before + binary(before.len(), x, op, y).steps =~= steps + lowering.steps);
        }
    }
}

/// The same of a comparison.
proof fn comparison_well_formed(
    scope: Scope,
    steps: Seq<Step>,
    location: Location,
    vals: Seq<Expression>,
    ops: Seq<Comparison>,
)
    requires
        well_formed(scope.functions, steps),
        variables_defined(scope, steps),
        steps.len() + lower_comparison(scope, steps.len(), location, vals, ops).steps.len()
            <= usize::MAX,
    ensures
        lowering_fits(
            scope.functions,
            steps,
            lower_comparison(scope, steps.len(), location, vals, ops),
        ),
    decreases vals, 0nat,
{
    let at = steps.len();
    let lowering = lower_comparison(scope, at, location, vals, ops);
    if ops.len() > 1 || vals.len() > 2 || vals.len() == 0 {
        assert(steps + lowering.steps =~= steps);
    } else {
        let b = vals[vals.len() - 1];
        let left = lower(scope, at, vals[0]);
        code_is_well_formed(scope, steps, vals[0]);
        if let Outcome::Done(x) = left.outcome {
            let middle = steps + left.steps;
            let right = lower(scope, middle.len(), b);
            lemma_variables_stay(scope, steps, left.steps);
            code_is_well_formed(scope, middle, b);
            lemma_value_stays(middle, right.steps, x);
            let before = steps + both(left, right).steps;
            assert(middle + right.steps =~= before);
            if let Outcome::Done(y) = right.outcome {
                if ops.len() == 0 {
                    assert(steps + lowering.steps =~= before);
                } else {
                    lemma_comparison(scope.functions, before, x, ops[0], y);
                    assert(before + comparison(before.len(), x, ops[0], y).steps =~= steps
                        + lowering.steps);
                }
            }
        }
    }
}

/// The same of a list.
proof fn list_well_formed(
    scope: Scope,
    steps: Seq<Step>,
    location: Location,
    elements: Seq<Expression>,
)
    requires
        well_formed(scope.functions, steps),
        variables_defined(scope, steps),
        steps.len() + lower_list(scope, steps.len(), location, elements).steps.len() <= usize::MAX,
    ensures
        lowering_fits(
            scope.functions,
            steps,
            lower_list(scope, steps.len(), location, elements),
        ),
    decreases elements, elements.len() + 1,
{
    let lowering = lower_list(scope, steps.len(), location, elements);
    let values = lower_elements(scope, steps.len(), location, elements, elements.len());
    elements_well_formed(scope, steps, location, elements, elements.len());
    if let Outcome::Done(parts) = values.outcome {
        let before = steps + values.steps;
        lemma_array(scope.functions, before, parts);
        assert(before + array(before.len(), parts).steps =~= steps + lowering.steps);
    }
}

/// The same of the elements of a list.
proof fn elements_well_formed(
    scope: Scope,
    steps: Seq<Step>,
    location: Location,
    elements: Seq<Expression>,
    n: nat,
)
    requires
        well_formed(scope.functions, steps),
        variables_defined(scope, steps),
        n <= elements.len(),
        steps.len() + lower_elements(scope, steps.len(), location, elements, n).steps.len()
            <= usize::MAX,
    ensures
        ({
            let lowering = lower_elements(scope, steps.len(), location, elements, n);
            &&& well_formed(scope.functions, steps + lowering.steps)
            &&& lowering.outcome matches Outcome::Done(values) ==> all_defined(
                steps + lowering.steps,
                values,
            )
        }),
    decreases elements, n,
{
    let at = steps.len();
    let lowering = lower_elements(scope, at, location, elements, n);
    if n == 0 {
        assert(steps + lowering.steps =~= steps);
    } else {
        let before = lower_elements(scope, at, location, elements, (n - 1) as nat);
        elements_well_formed(scope, steps, location, elements, (n - 1) as nat);
        if before.outcome is Done {
            let middle = steps + before.steps;
            let element = lower(scope, middle.len(), elements[n - 1]);
            lemma_variables_stay(scope, steps, before.steps);
            code_is_well_formed(scope, middle, elements[n - 1]);
            assert(middle + element.steps =~= steps + lowering.steps);
        }
    }
}

/// The same of a call.
proof fn call_well_formed(
    scope: Scope,
    steps: Seq<Step>,
    location: Location,
    function: Expression,
    args: Seq<Expression>,
)
    requires
        well_formed(scope.functions, steps),
        variables_defined(scope, steps),
        steps.len() + lower_call(scope, steps.len(), location, function, args).steps.len()
            <= usize::MAX,
    ensures
        lowering_fits(
            scope.functions,
            steps,
            lower_call(scope, steps.len(), location, function, args),
        ),
    decreases args, args.len() + 1,
{
    let at = steps.len();
    let lowering = lower_call(scope, at, location, function, args);
    if let ExpressionType::Identifier { name } = function.node {
        let first = if args.len() == 0 {
            at_once(location, Outcome::Done(Value::Void))
        } else {
            lower(scope, at, args[0])
        };
        if let Outcome::Done(value) = first.outcome {
            let found = scope.resolve(name@, value.value_type());
            if found is Some && scope.functions[found->0].known {
                let symbol = found->0;
                let params = scope.functions[symbol].params;
                let n = shorter(args.len(), params.len());
                let passed = lower_arguments(scope, at, first, value, args, params, n);
                arguments_longer(scope, at, first, value, args, params, n);
                first_well_formed(scope, steps, location, args);
                arguments_well_formed(scope, steps, first, value, args, params, n);
                if let Outcome::Done(arguments) = passed.outcome {
                    let before = steps + passed.steps;
                    lemma_call(scope, before, symbol, arguments);
                    assert(before + call(scope, before.len(), symbol, arguments).steps =~= steps
                        + lowering.steps);
                }
            } else {
                first_well_formed(scope, steps, location, args);
                assert(steps + lowering.steps =~= steps + first.steps);
            }
        } else {
            first_well_formed(scope, steps, location, args);
        }
    } else {
        assert(steps + lowering.steps =~= steps);
    }
}

/// The same of the first argument of a call.
proof fn first_well_formed(
    scope: Scope,
    steps: Seq<Step>,
    location: Location,
    args: Seq<Expression>,
)
    requires
        well_formed(scope.functions, steps),
        variables_defined(scope, steps),
        args.len() > 0 ==> steps.len() + lower(scope, steps.len(), args[0]).steps.len()
            <= usize::MAX,
    ensures
        lowering_fits(
            scope.functions,
            steps,
            if args.len() == 0 {
                at_once(location, Outcome::Done(Value::Void))
            } else {
                lower(scope, steps.len(), args[0])
            },
        ),
    decreases args, 0nat,
{
    if args.len() == 0 {
        assert(steps + Seq::<Step>::empty() =~= steps);
    } else {
        code_is_well_formed(scope, steps, args[0]);
    }
}

/// The code of the arguments holds that of the first.
pub(crate) proof fn arguments_longer(
    scope: Scope,
    at: nat,
    first: Lowering<Value>,
    value: Value,
    args: Seq<Expression>,
    params: Seq<BasicType>,
    n: nat,
)
    ensures
        first.steps.len() <= lower_arguments(
            scope,
            at,
            first,
            value,
            args,
            params,
            n,
        ).steps.len(),
    decreases n,
{
    if n > 0 {
        arguments_longer(scope, at, first, value, args, params, (n - 1) as nat);
    }
}

/// The same of the arguments of a call, the first of which has its code already.
proof fn arguments_well_formed(
    scope: Scope,
    steps: Seq<Step>,
    first: Lowering<Value>,
    value: Value,
    args: Seq<Expression>,
    params: Seq<BasicType>,
    n: nat,
)
    requires
        variables_defined(scope, steps),
        lowering_fits(scope.functions, steps, first),
        first.outcome == Outcome::Done(value),
        n <= args.len(),
        steps.len() + lower_arguments(
            scope,
            steps.len(),
            first,
            value,
            args,
            params,
            n,
        ).steps.len() <= usize::MAX,
    ensures
        ({
            let lowering = lower_arguments(scope, steps.len(), first, value, args, params, n);
            &&& well_formed(scope.functions, steps + lowering.steps)
            &&& value_defined(steps + lowering.steps, value)
            &&& lowering.outcome matches Outcome::Done(arguments) ==> {
                &&& arguments.len() == n
                &&& all_defined(steps + lowering.steps, arguments)
                &&& arguments_fit(arguments, params)
            }
        }),
    decreases args, n,
{
    let at = steps.len();
    let lowering = lower_arguments(scope, at, first, value, args, params, n);
    if n == 0 {
        assert(steps + lowering.steps =~= steps + first.steps);
    } else {
        let before = lower_arguments(scope, at, first, value, args, params, (n - 1) as nat);
        arguments_well_formed(scope, steps, first, value, args, params, (n - 1) as nat);
        if before.outcome is Done {
            let middle = steps + before.steps;
            let lowered = if n == 1 {
                at_once(before.location, Outcome::Done(value))
            } else {
                lower(scope, middle.len(), args[n - 1])
            };
            lemma_variables_stay(scope, steps, before.steps);
            if n == 1 {
                assert(middle + lowered.steps =~= middle);
            } else {
                code_is_well_formed(scope, middle, args[n - 1]);
            }
            lemma_value_stays(middle, lowered.steps, value);
            let ready = middle + lowered.steps;
            if let Outcome::Done(argument_value) = lowered.outcome {
                let converted = argument(ready.len(), argument_value, params[n - 1]);
                lemma_argument(scope.functions, ready, argument_value, params[n - 1]);
                lemma_value_stays(ready, converted.steps, value);
                assert(ready + converted.steps =~= steps + lowering.steps);
            } else {
                assert(ready =~= steps + lowering.steps);
            }
        }
    }
}

} // verus!
