//! That the generated code computes what the expression means.
//!
//! What the operations of the machine compute is left open: [`Machine`] can be any. Running the
//! steps that an expression is lowered to gives the value that the expression means on that
//! machine, and leaves its memory as the expression does.
use crate::ast::{
    constant_text, Comparison, Expression, ExpressionType, Location, Number, Operator,
};
use crate::integer::truncated;
use crate::ir::{
    before_nul, FloatOperator, FloatPredicate, IntOperator, IntPredicate, Operation, Step,
};
use crate::lowering::{
    argument, array, at_once, binary, call, comparison, float_operator, float_predicate,
    int_operator, int_predicate, lower, lower_arguments, lower_call, lower_comparison,
    lower_elements, lower_list, lower_operator, makes_array, negated_bits, shorter, Lowering,
    Outcome,
};
use crate::scope::Scope;
use crate::soundness::arguments_longer;
use crate::typing::{is_int, plain, typing, typing_foretells_lowering};
use crate::value::{BasicType, BasicValue, IntRef, PointerRef, Shape, Value, ValueType};
use vstd::prelude::*;

verus! {

/// What the operations of a machine compute, with values of type `V` and a memory of type `S`.
#[verifier::reject_recursive_types(S)]
#[verifier::reject_recursive_types(V)]
pub struct Machine<S, V> {
    /// The constant of a number of bits that some bits truncate to.
    pub const_int: spec_fn(u32, u64, bool) -> V,
    /// The single precision constant nearest to the double with these bits.
    pub const_float: spec_fn(u64) -> V,
    /// The array of some values.
    pub const_array: spec_fn(Seq<V>) -> V,
    /// A constant integer in single precision.
    pub const_signed_to_float: spec_fn(V) -> V,
    /// A pointer from elsewhere.
    pub place: spec_fn(PointerRef) -> V,
    /// A pointer to a text.
    pub string: spec_fn(Seq<char>) -> V,
    /// What is kept at a place in memory.
    pub load: spec_fn(S, PointerRef) -> V,
    /// An integer in single precision.
    pub signed_to_float: spec_fn(V) -> V,
    /// An integer cut down to a number of bits.
    pub int_truncate: spec_fn(V, u32) -> V,
    /// An integer cut down or extended to a number of bits.
    pub int_cast: spec_fn(V, u32) -> V,
    pub int_math: spec_fn(IntOperator, V, V) -> V,
    pub float_math: spec_fn(FloatOperator, V, V) -> V,
    pub int_compare: spec_fn(IntPredicate, V, V) -> V,
    pub float_compare: spec_fn(FloatPredicate, V, V) -> V,
    /// The memory that a call of a function leaves, and what the call gives.
    pub call: spec_fn(S, Seq<char>, Seq<V>) -> (S, V),
    /// What `None` means.
    pub nothing: V,
}

/// The memory, and the values that the steps gave so far.
pub struct State<S, V> {
    pub memory: S,
    pub values: Seq<V>,
}

/// The state after one more step.
pub open spec fn run_step<S, V>(m: Machine<S, V>, state: State<S, V>, step: Step) -> State<S, V> {
    let values = state.values;
    let (memory, value) = match step.operation {
        Operation::ConstInt { width, value, sign_extend } => (
            state.memory,
            (m.const_int)(width, value, sign_extend),
        ),
        Operation::ConstFloat { bits } => (state.memory, (m.const_float)(bits)),
        Operation::ConstArray { elements } => (
            state.memory,
            (m.const_array)(elements.map_values(|element: IntRef| values[element.id as int])),
        ),
        Operation::ConstSignedToFloat { value } => (
            state.memory,
            (m.const_signed_to_float)(values[value.id as int]),
        ),
        Operation::Slot { target, .. } => (
            state.memory,
            (m.place)(PointerRef { id: values.len() as usize, target }),
        ),
        Operation::GlobalString { text, .. } => (state.memory, (m.string)(text)),
        Operation::Load { pointer, .. } => (state.memory, (m.load)(state.memory, pointer)),
        Operation::SignedToFloat { value, .. } => (
            state.memory,
            (m.signed_to_float)(values[value.id as int]),
        ),
        Operation::IntTruncate { value, width, .. } => (
            state.memory,
            (m.int_truncate)(values[value.id as int], width),
        ),
        Operation::IntCast { value, width, .. } => (
            state.memory,
            (m.int_cast)(values[value.id as int], width),
        ),
        Operation::IntMath { operator, lhs, rhs, .. } => (
            state.memory,
            (m.int_math)(operator, values[lhs.id as int], values[rhs.id as int]),
        ),
        Operation::FloatMath { operator, lhs, rhs, .. } => (
            state.memory,
            (m.float_math)(operator, values[lhs.id as int], values[rhs.id as int]),
        ),
        Operation::IntCompare { predicate, lhs, rhs, .. } => (
            state.memory,
            (m.int_compare)(predicate, values[lhs.id as int], values[rhs.id as int]),
        ),
        Operation::FloatCompare { predicate, lhs, rhs, .. } => (
            state.memory,
            (m.float_compare)(predicate, values[lhs.id as int], values[rhs.id as int]),
        ),
        Operation::Call { function, arguments, .. } => (m.call)(
            state.memory,
            function,
            arguments.map_values(|argument: BasicValue| values[argument.spec_id() as int]),
        ),
    };
    State { memory, values: values.push(value) }
}

/// The state after some more steps.
pub open spec fn run<S, V>(m: Machine<S, V>, state: State<S, V>, steps: Seq<Step>) -> State<S, V>
    decreases steps.len(),
{
    if steps.len() == 0 {
        state
    } else {
        run_step(m, run(m, state, steps.drop_last()), steps.last())
    }
}

/// What a dividend or a divisor is in single precision.
pub open spec fn division_meaning<S, V>(m: Machine<S, V>, shape: Shape, x: V) -> V {
    if shape.constant {
        (m.const_signed_to_float)(x)
    } else {
        (m.signed_to_float)(x)
    }
}

/// What an operator makes of two values, of which the shapes tell whether they are integers.
pub open spec fn operator_meaning<S, V>(
    m: Machine<S, V>,
    left: Shape,
    x: V,
    op: Operator,
    right: Shape,
    y: V,
) -> V {
    if is_int(left) && is_int(right) {
        if op is Div {
            (m.float_math)(
                FloatOperator::Div,
                division_meaning(m, left, x),
                division_meaning(m, right, y),
            )
        } else {
            (m.int_math)(int_operator(op).unwrap().0, x, y)
        }
    } else {
        let lhs = if is_int(left) {
            (m.signed_to_float)(x)
        } else {
            x
        };
        let rhs = if is_int(right) {
            (m.signed_to_float)(y)
        } else {
            y
        };
        (m.float_math)(float_operator(op).unwrap().0, lhs, rhs)
    }
}

/// What a comparison makes of two values.
pub open spec fn comparison_meaning<S, V>(
    m: Machine<S, V>,
    left: Shape,
    x: V,
    op: Comparison,
    y: V,
) -> V {
    if is_int(left) {
        (m.int_compare)(int_predicate(op)->0, x, y)
    } else {
        (m.float_compare)(float_predicate(op)->0, x, y)
    }
}

/// What an argument is passed as.
pub open spec fn argument_meaning<S, V>(
    m: Machine<S, V>,
    shape: Shape,
    x: V,
    param: BasicType,
) -> V {
    match (shape.value_type, param) {
        (ValueType::Bool, BasicType::Int { width }) => (m.int_truncate)(x, width),
        (ValueType::I16, BasicType::Int { width }) => (m.int_truncate)(x, width),
        (ValueType::I8, BasicType::Int { width }) => (m.int_cast)(x, width),
        _ => x,
    }
}

/// What a number literal means.
pub open spec fn number_meaning<S, V>(m: Machine<S, V>, value: Number) -> V {
    match value {
        Number::Integer { value } => (m.const_int)(16, truncated(value@), true),
        Number::Float { bits } => (m.const_float)(bits),
        Number::Complex { .. } => m.nothing,
    }
}

/// What a number literal with a minus sign means.
pub open spec fn negated_meaning<S, V>(m: Machine<S, V>, node: ExpressionType) -> V {
    match node {
        ExpressionType::Number { value: Number::Integer { value } } => (m.const_int)(
            16,
            truncated(-value@),
            true,
        ),
        ExpressionType::Number { value: Number::Float { bits } } => (m.const_float)(
            negated_bits(bits),
        ),
        _ => m.nothing,
    }
}

/// The memory that `e` leaves and the value that it means, in `scope`, if it has a shape there.
/// Operands are evaluated from left to right, each once.
pub open spec fn meaning<S, V>(m: Machine<S, V>, scope: Scope, memory: S, e: Expression) -> (S, V)
    decreases e, 0nat,
{
    match e.node {
        ExpressionType::Number { value } => (memory, number_meaning(m, value)),
        ExpressionType::String { value } => (
            memory,
            (m.string)(before_nul(constant_text(value)->0)),
        ),
        ExpressionType::Identifier { name } => (
            memory,
            (m.load)(memory, scope.load(name@)->0.slot.pointer),
        ),
        ExpressionType::Unop { op, a } => (memory, negated_meaning(m, a.node)),
        ExpressionType::True => (memory, (m.const_int)(1, 1, false)),
        ExpressionType::False => (memory, (m.const_int)(1, 0, false)),
        ExpressionType::Binop { a, op, b } => {
            let (middle, x) = meaning(m, scope, memory, *a);
            let (after, y) = meaning(m, scope, middle, *b);
            (
                after,
                operator_meaning(m, typing(scope, *a)->Ok_0, x, op, typing(scope, *b)->Ok_0, y),
            )
        },
        ExpressionType::Compare { vals, ops } => compare_meaning(m, scope, memory, vals@, ops@),
        ExpressionType::List { elements } | ExpressionType::Tuple { elements } => {
            let (after, values) = elements_meaning(m, scope, memory, elements@, elements@.len());
            (after, (m.const_array)(values))
        },
        ExpressionType::Call { function, args, keywords } => call_meaning(
            m,
            scope,
            memory,
            *function,
            args@,
        ),
        _ => (memory, m.nothing),
    }
}

/// The memory that a comparison leaves, and what it means.
pub open spec fn compare_meaning<S, V>(
    m: Machine<S, V>,
    scope: Scope,
    memory: S,
    vals: Seq<Expression>,
    ops: Seq<Comparison>,
) -> (S, V)
    decreases vals, 0nat,
{
    if vals.len() == 0 {
        (memory, m.nothing)
    } else {
        let (middle, x) = meaning(m, scope, memory, vals[0]);
        let (after, y) = meaning(m, scope, middle, vals[vals.len() - 1]);
        (after, comparison_meaning(m, typing(scope, vals[0])->Ok_0, x, ops[0], y))
    }
}

/// The memory that the first `n` of `elements` leave, and what they mean.
pub open spec fn elements_meaning<S, V>(
    m: Machine<S, V>,
    scope: Scope,
    memory: S,
    elements: Seq<Expression>,
    n: nat,
) -> (S, Seq<V>)
    decreases elements, n,
{
    if n == 0 || n > elements.len() {
        (memory, Seq::empty())
    } else {
        let (middle, values) = elements_meaning(m, scope, memory, elements, (n - 1) as nat);
        let (after, value) = meaning(m, scope, middle, elements[n - 1]);
        (after, values.push(value))
    }
}

/// The memory that the first `n` arguments of a call leave, and what they are passed as. Evaluating
/// the first one left `memory` and gave `x`.
pub open spec fn arguments_meaning<S, V>(
    m: Machine<S, V>,
    scope: Scope,
    memory: S,
    first: Shape,
    x: V,
    args: Seq<Expression>,
    params: Seq<BasicType>,
    n: nat,
) -> (S, Seq<V>)
    decreases args, n,
{
    if n == 0 || n > args.len() {
        (memory, Seq::empty())
    } else {
        let (middle, values) = arguments_meaning(
            m,
            scope,
            memory,
            first,
            x,
            args,
            params,
            (n - 1) as nat,
        );
        if n == 1 {
            (middle, values.push(argument_meaning(m, first, x, params[0])))
        } else {
            let (after, value) = meaning(m, scope, middle, args[n - 1]);
            let shape = typing(scope, args[n - 1])->Ok_0;
            (after, values.push(argument_meaning(m, shape, value, params[n - 1])))
        }
    }
}

/// The memory that a call leaves, and what it means. As many arguments are evaluated as the
/// function has parameters, but the first in any case.
pub open spec fn call_meaning<S, V>(
    m: Machine<S, V>,
    scope: Scope,
    memory: S,
    function: Expression,
    args: Seq<Expression>,
) -> (S, V)
    decreases args, args.len() + 1,
{
    match function.node {
        ExpressionType::Identifier { name } => {
            let (middle, x) = if args.len() == 0 {
                (memory, m.nothing)
            } else {
                meaning(m, scope, memory, args[0])
            };
            let first = if args.len() == 0 {
                plain(ValueType::Void)
            } else {
                typing(scope, args[0])->Ok_0
            };
            let symbol = scope.resolve(name@, first.value_type)->0;
            let params = scope.functions[symbol].params;
            let n = shorter(args.len(), params.len());
            let (after, values) = arguments_meaning(m, scope, middle, first, x, args, params, n);
            (m.call)(after, symbol, values)
        },
        _ => (memory, m.nothing),
    }
}

/// Whether `values` has `v` where the step stands that gave `value`.
pub open spec fn holds<V>(values: Seq<V>, value: Value, v: V) -> bool {
    match value.basic() {
        Some(basic) => basic_holds(values, basic, v),
        None => true,
    }
}

/// Whether `values` has `v` where the step stands that gave `basic`.
pub open spec fn basic_holds<V>(values: Seq<V>, basic: BasicValue, v: V) -> bool {
    &&& basic.spec_id() < values.len()
    &&& values[basic.spec_id() as int] == v
}

/// Running some steps and then more of them is running them all.
pub(crate) proof fn lemma_run_on<S, V>(
    m: Machine<S, V>,
    state: State<S, V>,
    steps: Seq<Step>,
    more: Seq<Step>,
)
    ensures
        run(m, state, steps + more) == run(m, run(m, state, steps), more),
    decreases more.len(),
{
    if more.len() == 0 {
        assert(steps + more =~= steps);
    } else {
        lemma_run_on(m, state, steps, more.drop_last());
        assert((steps + more).drop_last() =~= steps + more.drop_last());
    }
}

/// Steps only add values.
pub(crate) proof fn lemma_run_adds<S, V>(m: Machine<S, V>, state: State<S, V>, steps: Seq<Step>)
    ensures
        run(m, state, steps).values.len() == state.values.len() + steps.len(),
        state.values =~= run(m, state, steps).values.take(state.values.len() as int),
    decreases steps.len(),
{
    if steps.len() > 0 {
        lemma_run_adds(m, state, steps.drop_last());
    }
}

/// A value stays where it is.
pub(crate) proof fn lemma_still_holds<S, V>(
    m: Machine<S, V>,
    state: State<S, V>,
    steps: Seq<Step>,
    basic: BasicValue,
    v: V,
)
    requires
        basic_holds(state.values, basic, v),
    ensures
        basic_holds(run(m, state, steps).values, basic, v),
{
    lemma_run_adds(m, state, steps);
    let values = run(m, state, steps).values;
    assert(values.take(state.values.len() as int)[basic.spec_id() as int]
        == values[basic.spec_id() as int]);
}

/// Running one step.
pub(crate) proof fn lemma_run_one<S, V>(m: Machine<S, V>, state: State<S, V>, step: Step)
    ensures
        run(m, state, seq![step]) == run_step(m, state, step),
{
    reveal_with_fuel(run, 2);
    assert(seq![step].drop_last() =~= Seq::empty());
}

/// The operators on values compute what they mean.
proof fn lemma_binary<S, V>(
    m: Machine<S, V>,
    state: State<S, V>,
    left: Value,
    x: V,
    op: Operator,
    right: Value,
    y: V,
)
    requires
        holds(state.values, left, x),
        holds(state.values, right, y),
        binary(state.values.len(), left, op, right).outcome is Done,
        state.values.len() + binary(state.values.len(), left, op, right).steps.len() <= usize::MAX,
    ensures
        ({
            let emission = binary(state.values.len(), left, op, right);
            let after = run(m, state, emission.steps);
            let v = operator_meaning(m, left.shape(), x, op, right.shape(), y);
            &&& after.memory == state.memory
            &&& holds(after.values, emission.outcome->Done_0, v)
        }),
{
    let steps = binary(state.values.len(), left, op, right).steps;
    if steps.len() == 1 {
        assert(steps =~= seq![steps[0]]);
        lemma_run_one(m, state, steps[0]);
    } else if steps.len() == 2 {
        assert(steps =~= seq![steps[0]] + seq![steps[1]]);
        lemma_run_on(m, state, seq![steps[0]], seq![steps[1]]);
        lemma_run_one(m, state, steps[0]);
        lemma_run_one(m, run_step(m, state, steps[0]), steps[1]);
    } else {
        let one = run_step(m, state, steps[0]);
        let two = run_step(m, one, steps[1]);
        assert(steps =~= seq![steps[0]] + seq![steps[1]] + seq![steps[2]]);
        lemma_run_on(m, state, seq![steps[0]] + seq![steps[1]], seq![steps[2]]);
        lemma_run_on(m, state, seq![steps[0]], seq![steps[1]]);
        lemma_run_one(m, state, steps[0]);
        lemma_run_one(m, one, steps[1]);
        lemma_run_one(m, two, steps[2]);
    }
}

/// Comparisons of values compute what they mean.
proof fn lemma_comparison<S, V>(
    m: Machine<S, V>,
    state: State<S, V>,
    left: Value,
    x: V,
    op: Comparison,
    right: Value,
    y: V,
)
    requires
        holds(state.values, left, x),
        holds(state.values, right, y),
        comparison(state.values.len(), left, op, right).outcome is Done,
        state.values.len() < usize::MAX,
    ensures
        ({
            let emission = comparison(state.values.len(), left, op, right);
            let after = run(m, state, emission.steps);
            &&& after.memory == state.memory
            &&& holds(
                after.values,
                emission.outcome->Done_0,
                comparison_meaning(m, left.shape(), x, op, y),
            )
        }),
{
    let steps = comparison(state.values.len(), left, op, right).steps;
    assert(steps =~= seq![steps[0]]);
    lemma_run_one(m, state, steps[0]);
}

/// Whether `values` has each of `vs` where the step stands that gave the one of `basics`.
pub open spec fn all_hold<V>(values: Seq<V>, basics: Seq<BasicValue>, vs: Seq<V>) -> bool {
    &&& basics.len() == vs.len()
    &&& forall|i: int|
        #![trigger basics[i]]
        #![trigger vs[i]]
        0 <= i < basics.len() ==> basic_holds(values, basics[i], vs[i])
}

/// Arrays hold what their elements mean.
proof fn lemma_array<S, V>(
    m: Machine<S, V>,
    state: State<S, V>,
    basics: Seq<BasicValue>,
    vs: Seq<V>,
)
    requires
        all_hold(state.values, basics, vs),
        makes_array(basics),
        state.values.len() < usize::MAX,
    ensures
        ({
            let emission = array(state.values.len(), basics);
            let after = run(m, state, emission.steps);
            &&& after.memory == state.memory
            &&& holds(after.values, emission.outcome->Done_0, (m.const_array)(vs))
        }),
{
    let steps = array(state.values.len(), basics).steps;
    assert(steps =~= seq![steps[0]]);
    lemma_run_one(m, state, steps[0]);
    let elements = basics.map_values(|value: BasicValue| value->Int_0);
    let values = state.values;
    assert(elements.map_values(|element: IntRef| values[element.id as int]) =~= vs) by {
        assert forall|i: int| 0 <= i < vs.len() implies values[#[trigger] elements[i].id as int]
            == vs[i] by {
            assert(basics[i] is Int);
            assert(basic_holds(values, basics[i], vs[i]));
        }
    }
}

/// Arguments are passed as what they mean.
proof fn lemma_argument<S, V>(
    m: Machine<S, V>,
    state: State<S, V>,
    value: Value,
    x: V,
    param: BasicType,
)
    requires
        holds(state.values, value, x),
        argument(state.values.len(), value, param).outcome is Done,
        state.values.len() + argument(state.values.len(), value, param).steps.len() <= usize::MAX,
    ensures
        ({
            let emission = argument(state.values.len(), value, param);
            let after = run(m, state, emission.steps);
            &&& after.memory == state.memory
            &&& basic_holds(
                after.values,
                emission.outcome->Done_0,
                argument_meaning(m, value.shape(), x, param),
            )
        }),
{
    let steps = argument(state.values.len(), value, param).steps;
    if steps.len() > 0 {
        assert(steps =~= seq![steps[0]]);
        lemma_run_one(m, state, steps[0]);
    }
}

/// A call leaves and gives what it means.
proof fn lemma_call<S, V>(
    m: Machine<S, V>,
    scope: Scope,
    state: State<S, V>,
    symbol: Seq<char>,
    arguments: Seq<BasicValue>,
    vs: Seq<V>,
)
    requires
        all_hold(state.values, arguments, vs),
        call(scope, state.values.len(), symbol, arguments).outcome is Done,
        state.values.len() < usize::MAX,
    ensures
        ({
            let emission = call(scope, state.values.len(), symbol, arguments);
            let after = run(m, state, emission.steps);
            let (memory, v) = (m.call)(state.memory, symbol, vs);
            &&& after.memory == memory
            &&& holds(after.values, emission.outcome->Done_0, v)
        }),
{
    let steps = call(scope, state.values.len(), symbol, arguments).steps;
    assert(steps =~= seq![steps[0]]);
    lemma_run_one(m, state, steps[0]);
    let values = state.values;
    assert(arguments.map_values(|argument: BasicValue| values[argument.spec_id() as int]) =~= vs)
        by {
        assert forall|i: int| 0 <= i < vs.len() implies values[(
        #[trigger] arguments[i]).spec_id() as int] == vs[i] by {
            assert(basic_holds(values, arguments[i], vs[i]));
        }
    }
}

/// Whether running the code of `lowering` in `state` leaves `expected.0` and gives `expected.1`.
pub open spec fn computes<S, V>(
    m: Machine<S, V>,
    state: State<S, V>,
    lowering: Lowering<Value>,
    expected: (S, V),
) -> bool {
    let after = run(m, state, lowering.steps);
    &&& after.memory == expected.0
    &&& holds(after.values, lowering.outcome->Done_0, expected.1)
}

/// The code of every expression that has a shape computes what the expression means, on any
/// machine and from any state: it leaves the memory that the expression leaves, and the step that
/// stands for the value gives the value that the expression means. In particular that does not
/// depend on the code before it.
pub proof fn code_computes_meaning<S, V>(
    m: Machine<S, V>,
    scope: Scope,
    state: State<S, V>,
    e: Expression,
)
    requires
        typing(scope, e) is Ok,
        state.values.len() + lower(scope, state.values.len(), e).steps.len() <= usize::MAX,
    ensures
        computes(
            m,
            state,
            lower(scope, state.values.len(), e),
            meaning(m, scope, state.memory, e),
        ),
    decreases e, 1nat,
{
    typing_foretells_lowering(scope, state.values.len(), e);
    match e.node {
        ExpressionType::Binop { a, op, b } => {
            operator_computes(m, scope, state, *a, op, *b, e);
        },
        ExpressionType::Compare { vals, ops } => {
            comparison_computes(m, scope, state, e.location, vals@, ops@);
        },
        ExpressionType::List { elements } | ExpressionType::Tuple { elements } => {
            list_computes(m, scope, state, e.location, elements@);
        },
        ExpressionType::Call { function, args, keywords } => {
            call_computes(m, scope, state, e.location, *function, args@);
        },
        _ => {
            leaf_computes(m, scope, state, e);
        },
    }
}

/// The same of an expression that has no parts to lower.
proof fn leaf_computes<S, V>(
    m: Machine<S, V>,
    scope: Scope,
    state: State<S, V>,
    e: Expression,
)
    requires
        lower(scope, state.values.len(), e).outcome is Done,
        state.values.len() + lower(scope, state.values.len(), e).steps.len() <= usize::MAX,
        !(e.node is Binop),
        !(e.node is Compare),
        !(e.node is List),
        !(e.node is Tuple),
        !(e.node is Call),
    ensures
        computes(
            m,
            state,
            lower(scope, state.values.len(), e),
            meaning(m, scope, state.memory, e),
        ),
{
    let lowering = lower(scope, state.values.len(), e);
    if !(e.node is NoneConstant) {
        assert(lowering.steps =~= seq![lowering.steps[0]]);
        lemma_run_one(m, state, lowering.steps[0]);
    }
}

/// The same of a binary operator between parts of `whole`.
proof fn operator_computes<S, V>(
    m: Machine<S, V>,
    scope: Scope,
    state: State<S, V>,
    a: Expression,
    op: Operator,
    b: Expression,
    whole: Expression,
)
    requires
        lower_operator(scope, state.values.len(), a, op, b).outcome is Done,
        state.values.len() + lower_operator(scope, state.values.len(), a, op, b).steps.len()
            <= usize::MAX,
        decreases_to!(whole => a),
        decreases_to!(whole => b),
    ensures
        ({
            let (middle, x) = meaning(m, scope, state.memory, a);
            let (after, y) = meaning(m, scope, middle, b);
            computes(
                m,
                state,
                lower_operator(scope, state.values.len(), a, op, b),
                (
                    after,
                    operator_meaning(m, typing(scope, a)->Ok_0, x, op, typing(scope, b)->Ok_0, y),
                ),
            )
        }),
    decreases whole, 0nat,
{
    let at = state.values.len();
    let left = lower(scope, at, a);
    let right = lower(scope, at + left.steps.len(), b);
    typing_foretells_lowering(scope, at, a);
    typing_foretells_lowering(scope, at + left.steps.len(), b);
    code_computes_meaning(m, scope, state, a);
    let (middle, x) = meaning(m, scope, state.memory, a);
    let one = run(m, state, left.steps);
    lemma_run_adds(m, state, left.steps);
    code_computes_meaning(m, scope, one, b);
    let (_, y) = meaning(m, scope, middle, b);
    let two = run(m, one, right.steps);
    lemma_run_adds(m, one, right.steps);
    lemma_run_on(m, state, left.steps, right.steps);
    let lhs = left.outcome->Done_0;
    let rhs = right.outcome->Done_0;
    if let Some(basic) = lhs.basic() {
        lemma_still_holds(m, one, right.steps, basic, x);
    }
    lemma_binary(m, two, lhs, x, op, rhs, y);
    lemma_run_on(
        m,
        state,
        left.steps + right.steps,
        binary(two.values.len(), lhs, op, rhs).steps,
    );
}

/// The same of a comparison.
proof fn comparison_computes<S, V>(
    m: Machine<S, V>,
    scope: Scope,
    state: State<S, V>,
    location: Location,
    vals: Seq<Expression>,
    ops: Seq<Comparison>,
)
    requires
        lower_comparison(scope, state.values.len(), location, vals, ops).outcome is Done,
        state.values.len() + lower_comparison(
            scope,
            state.values.len(),
            location,
            vals,
            ops,
        ).steps.len() <= usize::MAX,
    ensures
        computes(
            m,
            state,
            lower_comparison(scope, state.values.len(), location, vals, ops),
            compare_meaning(m, scope, state.memory, vals, ops),
        ),
    decreases vals, 0nat,
{
    let at = state.values.len();
    let a = vals[0];
    let b = vals[vals.len() - 1];
    let left = lower(scope, at, a);
    let right = lower(scope, at + left.steps.len(), b);
    typing_foretells_lowering(scope, at, a);
    typing_foretells_lowering(scope, at + left.steps.len(), b);
    code_computes_meaning(m, scope, state, a);
    let (middle, x) = meaning(m, scope, state.memory, a);
    let one = run(m, state, left.steps);
    lemma_run_adds(m, state, left.steps);
    code_computes_meaning(m, scope, one, b);
    let (_, y) = meaning(m, scope, middle, b);
    let two = run(m, one, right.steps);
    lemma_run_adds(m, one, right.steps);
    lemma_run_on(m, state, left.steps, right.steps);
    let lhs = left.outcome->Done_0;
    let rhs = right.outcome->Done_0;
    if let Some(basic) = lhs.basic() {
        lemma_still_holds(m, one, right.steps, basic, x);
    }
    lemma_comparison(m, two, lhs, x, ops[0], rhs, y);
    lemma_run_on(
        m,
        state,
        left.steps + right.steps,
        comparison(two.values.len(), lhs, ops[0], rhs).steps,
    );
}

/// The same of a list.
proof fn list_computes<S, V>(
    m: Machine<S, V>,
    scope: Scope,
    state: State<S, V>,
    location: Location,
    elements: Seq<Expression>,
)
    requires
        lower_list(scope, state.values.len(), location, elements).outcome is Done,
        state.values.len() + lower_list(
            scope,
            state.values.len(),
            location,
            elements,
        ).steps.len() <= usize::MAX,
    ensures
        ({
            let (after, vs) = elements_meaning(m, scope, state.memory, elements, elements.len());
            computes(
                m,
                state,
                lower_list(scope, state.values.len(), location, elements),
                (after, (m.const_array)(vs)),
            )
        }),
    decreases elements, elements.len() + 1,
{
    let at = state.values.len();
    let all = lower_elements(scope, at, location, elements, elements.len());
    let (_, vs) = elements_meaning(m, scope, state.memory, elements, elements.len());
    elements_compute(m, scope, state, location, elements, elements.len());
    let one = run(m, state, all.steps);
    lemma_run_adds(m, state, all.steps);
    let parts = all.outcome->Done_0;
    lemma_array(m, one, parts, vs);
    lemma_run_on(m, state, all.steps, array(one.values.len(), parts).steps);
}

/// The same of the elements of a list.
proof fn elements_compute<S, V>(
    m: Machine<S, V>,
    scope: Scope,
    state: State<S, V>,
    location: Location,
    elements: Seq<Expression>,
    n: nat,
)
    requires
        n <= elements.len(),
        lower_elements(scope, state.values.len(), location, elements, n).outcome is Done,
        state.values.len() + lower_elements(
            scope,
            state.values.len(),
            location,
            elements,
            n,
        ).steps.len() <= usize::MAX,
    ensures
        ({
            let lowering = lower_elements(scope, state.values.len(), location, elements, n);
            let (memory, vs) = elements_meaning(m, scope, state.memory, elements, n);
            let after = run(m, state, lowering.steps);
            &&& after.memory == memory
            &&& all_hold(after.values, lowering.outcome->Done_0, vs)
        }),
    decreases elements, n,
{
    if n > 0 {
        let at = state.values.len();
        let k = (n - 1) as nat;
        let before = lower_elements(scope, at, location, elements, k);
        elements_compute(m, scope, state, location, elements, k);
        let (_, earlier) = elements_meaning(m, scope, state.memory, elements, k);
        let one = run(m, state, before.steps);
        lemma_run_adds(m, state, before.steps);
        let element = lower(scope, at + before.steps.len(), elements[n - 1]);
        typing_foretells_lowering(scope, at + before.steps.len(), elements[n - 1]);
        code_computes_meaning(m, scope, one, elements[n - 1]);
        lemma_run_on(m, state, before.steps, element.steps);
        let values = before.outcome->Done_0;
        assert forall|i: int| 0 <= i < values.len() implies basic_holds(
            run(m, one, element.steps).values,
            #[trigger] values[i],
            earlier[i],
        ) by {
            lemma_still_holds(m, one, element.steps, values[i], earlier[i]);
        }
    }
}

/// The same of a call.
proof fn call_computes<S, V>(
    m: Machine<S, V>,
    scope: Scope,
    state: State<S, V>,
    location: Location,
    function: Expression,
    args: Seq<Expression>,
)
    requires
        lower_call(scope, state.values.len(), location, function, args).outcome is Done,
        state.values.len() + lower_call(
            scope,
            state.values.len(),
            location,
            function,
            args,
        ).steps.len() <= usize::MAX,
    ensures
        computes(
            m,
            state,
            lower_call(scope, state.values.len(), location, function, args),
            call_meaning(m, scope, state.memory, function, args),
        ),
    decreases args, args.len() + 1,
{
    let at = state.values.len();
    if let ExpressionType::Identifier { name } = function.node {
        let first = if args.len() == 0 {
            at_once(location, Outcome::Done(Value::Void))
        } else {
            lower(scope, at, args[0])
        };
        let value = first.outcome->Done_0;
        let symbol = scope.resolve(name@, value.value_type())->0;
        let params = scope.functions[symbol].params;
        let n = shorter(args.len(), params.len());
        let passed = lower_arguments(scope, at, first, value, args, params, n);
        arguments_longer(scope, at, first, value, args, params, n);
        let (middle, x) = if args.len() == 0 {
            (state.memory, m.nothing)
        } else {
            meaning(m, scope, state.memory, args[0])
        };
        if args.len() > 0 {
            typing_foretells_lowering(scope, at, args[0]);
            code_computes_meaning(m, scope, state, args[0]);
        }
        arguments_compute(m, scope, state, first, value, x, args, params, n);
        let (_, vs) = arguments_meaning(m, scope, middle, value.shape(), x, args, params, n);
        let one = run(m, state, passed.steps);
        lemma_run_adds(m, state, passed.steps);
        let arguments = passed.outcome->Done_0;
        lemma_call(m, scope, one, symbol, arguments, vs);
        lemma_run_on(
            m,
            state,
            passed.steps,
            call(scope, one.values.len(), symbol, arguments).steps,
        );
    }
}

/// The same of the arguments of a call, the first of which has its code already.
proof fn arguments_compute<S, V>(
    m: Machine<S, V>,
    scope: Scope,
    state: State<S, V>,
    first: Lowering<Value>,
    value: Value,
    x: V,
    args: Seq<Expression>,
    params: Seq<BasicType>,
    n: nat,
)
    requires
        n <= args.len(),
        first.outcome == Outcome::Done(value),
        holds(run(m, state, first.steps).values, value, x),
        lower_arguments(
            scope,
            state.values.len(),
            first,
            value,
            args,
            params,
            n,
        ).outcome is Done,
        state.values.len() + lower_arguments(
            scope,
            state.values.len(),
            first,
            value,
            args,
            params,
            n,
        ).steps.len() <= usize::MAX,
    ensures
        ({
            let lowering = lower_arguments(
                scope,
                state.values.len(),
                first,
                value,
                args,
                params,
                n,
            );
            let (memory, vs) = arguments_meaning(
                m,
                scope,
                run(m, state, first.steps).memory,
                value.shape(),
                x,
                args,
                params,
                n,
            );
            let after = run(m, state, lowering.steps);
            &&& after.memory == memory
            &&& holds(after.values, value, x)
            &&& all_hold(after.values, lowering.outcome->Done_0, vs)
        }),
    decreases args, n,
{
    let at = state.values.len();
    if n == 0 {
        assert(first.steps + Seq::<Step>::empty() =~= first.steps);
    } else {
        let k = (n - 1) as nat;
        let memory = run(m, state, first.steps).memory;
        let shape = value.shape();
        let before = lower_arguments(scope, at, first, value, args, params, k);
        arguments_compute(m, scope, state, first, value, x, args, params, k);
        let (middle, earlier) = arguments_meaning(m, scope, memory, shape, x, args, params, k);
        let one = run(m, state, before.steps);
        lemma_run_adds(m, state, before.steps);
        let lowered = if n == 1 {
            at_once(before.location, Outcome::Done(value))
        } else {
            lower(scope, at + before.steps.len(), args[n - 1])
        };
        if n > 1 {
            typing_foretells_lowering(scope, at + before.steps.len(), args[n - 1]);
            code_computes_meaning(m, scope, one, args[n - 1]);
        }
        let two = run(m, one, lowered.steps);
        lemma_run_adds(m, one, lowered.steps);
        lemma_run_on(m, state, before.steps, lowered.steps);
        let this = lowered.outcome->Done_0;
        let v = if n == 1 {
            x
        } else {
            meaning(m, scope, middle, args[n - 1]).1
        };
        let converted = argument(two.values.len(), this, params[n - 1]);
        lemma_argument(m, two, this, v, params[n - 1]);
        lemma_run_on(m, state, before.steps + lowered.steps, converted.steps);
        let three = run(m, two, converted.steps);
        if let Some(basic) = value.basic() {
            lemma_still_holds(m, one, lowered.steps, basic, x);
            lemma_still_holds(m, two, converted.steps, basic, x);
        }
        let arguments = before.outcome->Done_0;
        assert forall|i: int| 0 <= i < arguments.len() implies basic_holds(
            three.values,
            #[trigger] arguments[i],
            earlier[i],
        ) by {
            lemma_still_holds(m, one, lowered.steps, arguments[i], earlier[i]);
            lemma_still_holds(m, two, converted.steps, arguments[i], earlier[i]);
        }
    }
}

} // verus!
