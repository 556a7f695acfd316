//! What holds of code generation as a whole.
use crate::ast::{Comparison, Expression, ExpressionType, Keyword, Location, Number, Operator};
use crate::error::{LLVMCompileErrorType, MessageView};
use crate::integer::{base, truncated};
use crate::ir::Operation;
use crate::lowering::{
    at_once, failure, lower, lower_arguments, lower_call, lower_comparison, lower_elements,
    lower_list, lower_operator, negated_bits, shorter, Lowering, Outcome,
};
use crate::scope::{Scope, Variable};
use crate::typing::{typing, typing_foretells_lowering};
use crate::value::{BasicType, Value, ValueType};
use vstd::prelude::*;

verus! {

/// What an operator makes of two operands is a floating point number if it is a division or if one
/// of the operands is a floating point number, and else an integer of type `I16`. It is a constant
/// if and only if both operands are.
pub proof fn operator_result(
    scope: Scope,
    e: Expression,
    a: Expression,
    op: Operator,
    b: Expression,
)
    requires
        e.node == (ExpressionType::Binop { a: Box::new(a), op, b: Box::new(b) }),
        typing(scope, e) is Ok,
    ensures
        ({
            let left = typing(scope, a)->Ok_0;
            let right = typing(scope, b)->Ok_0;
            let result = typing(scope, e)->Ok_0;
            &&& typing(scope, a) is Ok
            &&& typing(scope, b) is Ok
            &&& result.constant == (left.constant && right.constant)
            &&& result.value_type == (if op is Div || left.value_type is F32
                || right.value_type is F32 {
                ValueType::F32
            } else {
                ValueType::I16
            })
        }),
{
}

/// A comparison gives a boolean of one bit.
pub proof fn comparison_result(
    scope: Scope,
    e: Expression,
    vals: Vec<Expression>,
    ops: Vec<Comparison>,
)
    requires
        e.node == (ExpressionType::Compare { vals, ops }),
        typing(scope, e) is Ok,
    ensures
        typing(scope, e)->Ok_0.value_type is Bool,
        typing(scope, e)->Ok_0.kind == Some(BasicType::Int { width: 1 }),
{
    reveal_with_fuel(typing, 2);
}

/// Chained comparisons are always refused, with no code generated.
pub proof fn chained_comparison_refused(
    scope: Scope,
    at: nat,
    e: Expression,
    vals: Vec<Expression>,
    ops: Vec<Comparison>,
)
    requires
        e.node == (ExpressionType::Compare { vals, ops }),
        ops@.len() > 1 || vals@.len() > 2,
    ensures
        lower(scope, at, e) == at_once::<Value>(
            e.location,
            failure(
                LLVMCompileErrorType::NotImplemented,
                "Chained comparison is not implemented."@,
            ),
        ),
{
    reveal_with_fuel(lower, 2);
    reveal_with_fuel(lower_comparison, 2);
}

/// The number from -2^15 to 2^15 - 1 whose lowest 16 bits are those of `bits`.
pub open spec fn signed_16(bits: u64) -> int {
    let low = bits % 0x1_0000;
    if low < 0x8000 {
        low as int
    } else {
        low - 0x1_0000
    }
}

/// The constant of an integer literal is that integer modulo 2^16, and so is the one of an integer
/// literal with a minus sign. An integer from -2^15 to 2^15 - 1 is kept as it is.
pub proof fn integer_literal_value(scope: Scope, at: nat, e: Expression)
    requires
        match e.node {
            ExpressionType::Number { value: Number::Integer { .. } } => true,
            ExpressionType::Unop { op, a } => op is Neg
                && a.node matches ExpressionType::Number { value: Number::Integer { .. } },
            _ => false,
        },
    ensures
        ({
            let n = match e.node {
                ExpressionType::Number { value: Number::Integer { value } } => value@,
                ExpressionType::Unop { a, .. } => -a.node->Number_value->Integer_value@,
                _ => 0,
            };
            let steps = lower(scope, at, e).steps;
            &&& lower(scope, at, e).outcome matches Outcome::Done(Value::I16 { .. })
            &&& steps.len() == 1
            &&& steps[0].operation matches Operation::ConstInt { width, value, sign_extend }
            &&& width == 16
            &&& signed_16(value) % 0x1_0000 == n % 0x1_0000
            &&& -0x8000 <= n < 0x8000 ==> signed_16(value) == n
        }),
{
    let n = match e.node {
        ExpressionType::Number { value: Number::Integer { value } } => value@,
        ExpressionType::Unop { a, .. } => -a.node->Number_value->Integer_value@,
        _ => 0,
    };
    lemma_truncated(n);
}

/// Truncation to 64 bits keeps the lowest 16.
proof fn lemma_truncated(n: int)
    ensures
        truncated(n) % 0x1_0000 == n % 0x1_0000,
        signed_16(truncated(n)) % 0x1_0000 == n % 0x1_0000,
        -0x8000 <= n < 0x8000 ==> signed_16(truncated(n)) == n,
{
    let quotient = n / base();
    assert(n == base() * quotient + n % base()) by {
        vstd::arithmetic::div_mod::lemma_fundamental_div_mod(n, base());
    }
    let low = n % base();
    assert(0 <= low < base());
    assert(low % 0x1_0000 == n % 0x1_0000) by {
        assert(n == 0x1_0000 * (0x1_0000_0000_0000 * quotient) + low) by (nonlinear_arith)
            requires
                n == base() * quotient + low,
        ;
        vstd::arithmetic::div_mod::lemma_mod_multiples_vanish(
            0x1_0000_0000_0000 * quotient,
            low,
            0x1_0000,
        );
    }
}

/// Changing the sign of a floating point number twice gives it back, and changes nothing but the
/// sign bit.
pub proof fn sign_change_undone(bits: u64)
    ensures
        negated_bits(negated_bits(bits)) == bits,
        negated_bits(bits) != bits,
        negated_bits(bits) % 0x8000_0000_0000_0000 == bits % 0x8000_0000_0000_0000,
{
    assert((bits ^ 0x8000_0000_0000_0000) ^ 0x8000_0000_0000_0000 == bits) by (bit_vector);
    assert((bits ^ 0x8000_0000_0000_0000) != bits) by (bit_vector);
    assert((bits ^ 0x8000_0000_0000_0000) % 0x8000_0000_0000_0000 == bits % 0x8000_0000_0000_0000)
        by (bit_vector);
}

/// A local of the function means itself, whatever globals there are.
pub proof fn local_shadows_global(scope: Scope, name: Seq<char>, global: Variable)
    requires
        scope.function is Some,
        scope.variables.contains_key((scope.function, name)),
    ensures
        scope.load(name) == Some(scope.variables[(scope.function, name)]),
        (Scope {
            variables: scope.variables.insert((None::<Seq<char>>, name), global),
            ..scope
        }).load(name) == scope.load(name),
{
}

/// The locals of one function mean nothing in another, nor at the top level.
pub proof fn local_elsewhere_unseen(
    scope: Scope,
    function: Seq<char>,
    name: Seq<char>,
    local: Variable,
)
    requires
        scope.function != Some(function),
    ensures
        (Scope {
            variables: scope.variables.insert((Some(function), name), local),
            ..scope
        }).load(name) == scope.load(name),
{
}

/// A function that has the very name that is called is the one meant, whatever the first argument
/// and the mangled names are.
pub proof fn exact_name_wins(
    scope: Scope,
    name: Seq<char>,
    first_argument: ValueType,
    mangled: Map<(Seq<char>, ValueType), Seq<char>>,
)
    requires
        scope.functions.contains_key(name),
    ensures
        (Scope { mangled, ..scope }).resolve(name, first_argument) == Some(name),
{
}

/// Only functions that are there are called.
pub proof fn resolved_function_exists(scope: Scope, name: Seq<char>, first_argument: ValueType)
    ensures
        scope.resolve(name, first_argument) matches Some(symbol)
            ==> scope.functions.contains_key(symbol),
{
}

/// Keyword arguments do not matter: neither to whether a call is handled, nor to the code and what
/// comes of it, which are those of the function and the other arguments.
pub proof fn keywords_ignored(
    scope: Scope,
    at: nat,
    location: Location,
    function: Box<Expression>,
    args: Vec<Expression>,
    keywords: Vec<Keyword>,
    others: Vec<Keyword>,
)
    ensures
        ({
            let one = Expression {
                location,
                node: ExpressionType::Call { function, args, keywords },
            };
            let other = Expression {
                location,
                node: ExpressionType::Call { function, args, keywords: others },
            };
            &&& typing(scope, one) == typing(scope, other)
            &&& lower(scope, at, one) == lower(scope, at, other)
            &&& lower(scope, at, one) == lower_call(scope, at, location, *function, args@)
        }),
{
}

/// A tuple is lowered as a list of its elements.
pub proof fn tuple_is_list(scope: Scope, at: nat, location: Location, elements: Vec<Expression>)
    ensures
        lower(scope, at, Expression { location, node: ExpressionType::Tuple { elements } })
            == lower(scope, at, Expression { location, node: ExpressionType::List { elements } }),
{
}

/// Arguments that the function has no parameters for do not matter, but for the first one: no code
/// is generated for them.
pub proof fn extra_arguments_ignored(
    scope: Scope,
    at: nat,
    location: Location,
    function: Expression,
    args: Seq<Expression>,
    extra: Seq<Expression>,
)
    requires
        args.len() > 0,
        typing(scope, args[0]) matches Ok(shape) ==> function.node
            matches ExpressionType::Identifier { name } ==> scope.resolve(name@, shape.value_type)
            matches Some(symbol) ==> scope.functions[symbol].params.len() <= args.len(),
    ensures
        lower_call(scope, at, location, function, args + extra) == lower_call(
            scope,
            at,
            location,
            function,
            args,
        ),
{
    let all = args + extra;
    assert(all[0] == args[0]);
    typing_foretells_lowering(scope, at, args[0]);
    if let ExpressionType::Identifier { name } = function.node {
        let first = lower(scope, at, args[0]);
        if let Outcome::Done(value) = first.outcome {
            if let Some(symbol) = scope.resolve(name@, value.value_type()) {
                let params = scope.functions[symbol].params;
                let n = shorter(args.len(), params.len());
                lemma_same_arguments(scope, at, first, value, args, extra, params, n);
            }
        }
    }
}

/// Arguments are lowered one after the other: those that follow do not matter.
proof fn lemma_same_arguments(
    scope: Scope,
    at: nat,
    first: Lowering<Value>,
    value: Value,
    args: Seq<Expression>,
    extra: Seq<Expression>,
    params: Seq<BasicType>,
    n: nat,
)
    requires
        n <= args.len(),
    ensures
        lower_arguments(scope, at, first, value, args + extra, params, n) == lower_arguments(
            scope,
            at,
            first,
            value,
            args,
            params,
            n,
        ),
    decreases n,
{
    if n > 0 {
        lemma_same_arguments(scope, at, first, value, args, extra, params, (n - 1) as nat);
        assert((args + extra)[n - 1] == args[n - 1]);
    }
}

/// The code of a call starts with that of the first argument, whatever function is called and even
/// if there is none: its type is what tells which function is meant.
pub proof fn first_argument_comes_first(
    scope: Scope,
    at: nat,
    location: Location,
    function: Expression,
    args: Seq<Expression>,
)
    requires
        function.node is Identifier,
        args.len() > 0,
    ensures
        lower(scope, at, args[0]).steps.is_prefix_of(
            lower_call(scope, at, location, function, args).steps,
        ),
{
    let first = lower(scope, at, args[0]);
    if let ExpressionType::Identifier { name } = function.node {
        if let Outcome::Done(value) = first.outcome {
            if let Some(symbol) = scope.resolve(name@, value.value_type()) {
                let params = scope.functions[symbol].params;
                let n = shorter(args.len(), params.len());
                lemma_first_stays(scope, at, first, value, args, params, n);
            }
        }
    }
}

/// The code of the arguments starts with that of the first.
proof fn lemma_first_stays(
    scope: Scope,
    at: nat,
    first: Lowering<Value>,
    value: Value,
    args: Seq<Expression>,
    params: Seq<BasicType>,
    n: nat,
)
    ensures
        first.steps.is_prefix_of(
            lower_arguments(scope, at, first, value, args, params, n).steps,
        ),
    decreases n,
{
    if n > 0 {
        lemma_first_stays(scope, at, first, value, args, params, (n - 1) as nat);
    }
}

/// Whether `location` is that of `e` or of a part of it that code is generated for.
pub open spec fn located_in(e: Expression, location: Location) -> bool
    decreases e, 0nat,
{
    e.location == location || match e.node {
        ExpressionType::Binop { a, op, b } => located_in(*a, location) || located_in(*b, location),
        ExpressionType::Compare { vals, ops } => located_among(vals@, vals@.len(), location),
        ExpressionType::List { elements } | ExpressionType::Tuple { elements } => located_among(
            elements@,
            elements@.len(),
            location,
        ),
        ExpressionType::Call { function, args, keywords } => located_among(
            args@,
            args@.len(),
            location,
        ),
        _ => false,
    }
}

/// Whether `location` is that of one of the first `n` of `expressions` or of a part of one.
pub open spec fn located_among(expressions: Seq<Expression>, n: nat, location: Location) -> bool
    decreases expressions, n,
{
    0 < n <= expressions.len() && (located_in(expressions[n - 1], location) || located_among(
        expressions,
        (n - 1) as nat,
        location,
    ))
}

/// Whether a failure is explained: a name error by a name that is not in scope.
pub open spec fn explained<T>(scope: Scope, outcome: Outcome<T>) -> bool {
    outcome matches Outcome::Failed(fault) ==> (fault.error is NameError ==> {
        &&& fault.message matches MessageView::Text(name)
        &&& scope.load(name) is None || !scope.functions.contains_key(name)
    })
}

/// One of the first `n` is one of the first `m`.
proof fn lemma_among(expressions: Seq<Expression>, n: nat, m: nat, location: Location)
    requires
        located_among(expressions, n, location),
        n <= m <= expressions.len(),
    ensures
        located_among(expressions, m, location),
    decreases m,
{
    if n < m {
        lemma_among(expressions, n, (m - 1) as nat, location);
    }
}

/// Code generation for an expression ends within it: the place that it reports, in particular of
/// an error, is that of the expression or of a part of it. If it fails with a name error, the name
/// is one that no variable in scope or no function has.
pub proof fn failure_is_explained(scope: Scope, at: nat, e: Expression)
    ensures
        located_in(e, lower(scope, at, e).location),
        explained(scope, lower(scope, at, e).outcome),
    decreases e, 1nat,
{
    match e.node {
        ExpressionType::Binop { a, op, b } => {
            operator_explained(scope, at, *a, op, *b, e);
        },
        ExpressionType::Compare { vals, ops } => {
            comparison_explained(scope, at, e.location, vals@, ops@);
        },
        ExpressionType::List { elements } | ExpressionType::Tuple { elements } => {
            list_explained(scope, at, e.location, elements@);
        },
        ExpressionType::Call { function, args, keywords } => {
            call_explained(scope, at, e.location, *function, args@);
        },
        _ => {
            leaf_explained(scope, at, e);
        },
    }
}

/// The same of an expression that has no parts to lower.
proof fn leaf_explained(scope: Scope, at: nat, e: Expression)
    requires
        !(e.node is Binop),
        !(e.node is Compare),
        !(e.node is List),
        !(e.node is Tuple),
        !(e.node is Call),
    ensures
        lower(scope, at, e).location == e.location,
        explained(scope, lower(scope, at, e).outcome),
{
}

/// The same of a binary operator between parts of `whole`.
proof fn operator_explained(
    scope: Scope,
    at: nat,
    a: Expression,
    op: Operator,
    b: Expression,
    whole: Expression,
)
    requires
        decreases_to!(whole => a),
        decreases_to!(whole => b),
    ensures
        ({
            let lowering = lower_operator(scope, at, a, op, b);
            &&& located_in(a, lowering.location) || located_in(b, lowering.location)
            &&& explained(scope, lowering.outcome)
        }),
    decreases whole, 0nat,
{
    let left = lower(scope, at, a);
    failure_is_explained(scope, at, a);
    failure_is_explained(scope, at + left.steps.len(), b);
}

/// The same of a list.
proof fn list_explained(scope: Scope, at: nat, location: Location, elements: Seq<Expression>)
    ensures
        ({
            let lowering = lower_list(scope, at, location, elements);
            &&& lowering.location == location || located_among(
                elements,
                elements.len(),
                lowering.location,
            )
            &&& explained(scope, lowering.outcome)
        }),
    decreases elements, elements.len() + 1,
{
    elements_explained(scope, at, location, elements, elements.len());
}

/// The same of a comparison.
proof fn comparison_explained(
    scope: Scope,
    at: nat,
    location: Location,
    vals: Seq<Expression>,
    ops: Seq<Comparison>,
)
    ensures
        ({
            let lowering = lower_comparison(scope, at, location, vals, ops);
            &&& lowering.location == location || located_among(
                vals,
                vals.len(),
                lowering.location,
            )
            &&& explained(scope, lowering.outcome)
        }),
    decreases vals, 0nat,
{
    if ops.len() <= 1 && 0 < vals.len() <= 2 {
        let lowering = lower_comparison(scope, at, location, vals, ops);
        let left = lower(scope, at, vals[0]);
        failure_is_explained(scope, at, vals[0]);
        failure_is_explained(scope, at + left.steps.len(), vals[vals.len() - 1]);
        if left.outcome is Done {
            assert(located_in(vals[vals.len() - 1], lowering.location));
        } else {
            assert(located_in(vals[0], lowering.location));
            assert(located_among(vals, 1, lowering.location));
            lemma_among(vals, 1, vals.len(), lowering.location);
        }
    }
}

/// The same of the elements of a list.
proof fn elements_explained(
    scope: Scope,
    at: nat,
    location: Location,
    elements: Seq<Expression>,
    n: nat,
)
    requires
        n <= elements.len(),
    ensures
        ({
            let lowering = lower_elements(scope, at, location, elements, n);
            &&& lowering.location == location || located_among(elements, n, lowering.location)
            &&& explained(scope, lowering.outcome)
        }),
    decreases elements, n,
{
    if n > 0 {
        elements_explained(scope, at, location, elements, (n - 1) as nat);
        let before = lower_elements(scope, at, location, elements, (n - 1) as nat);
        failure_is_explained(scope, at + before.steps.len(), elements[n - 1]);
    }
}

/// The same of a call.
proof fn call_explained(
    scope: Scope,
    at: nat,
    location: Location,
    function: Expression,
    args: Seq<Expression>,
)
    ensures
        ({
            let lowering = lower_call(scope, at, location, function, args);
            &&& lowering.location == location || located_among(
                args,
                args.len(),
                lowering.location,
            )
            &&& explained(scope, lowering.outcome)
        }),
    decreases args, args.len() + 1,
{
    if let ExpressionType::Identifier { name } = function.node {
        let first = if args.len() == 0 {
            at_once(location, Outcome::Done(Value::Void))
        } else {
            lower(scope, at, args[0])
        };
        if args.len() > 0 {
            failure_is_explained(scope, at, args[0]);
            assert(located_among(args, 1, first.location));
            lemma_among(args, 1, args.len(), first.location);
        }
        if let Outcome::Done(value) = first.outcome {
            if let Some(symbol) = scope.resolve(name@, value.value_type()) {
                let params = scope.functions[symbol].params;
                let n = shorter(args.len(), params.len());
                arguments_explained(scope, at, first, value, args, params, n);
                let passed = lower_arguments(scope, at, first, value, args, params, n);
                if passed.location != first.location {
                    lemma_among(args, n, args.len(), passed.location);
                }
            }
        }
    }
}

/// The same of the arguments of a call, the first of which has its code already.
proof fn arguments_explained(
    scope: Scope,
    at: nat,
    first: Lowering<Value>,
    value: Value,
    args: Seq<Expression>,
    params: Seq<BasicType>,
    n: nat,
)
    requires
        n <= args.len(),
    ensures
        ({
            let lowering = lower_arguments(scope, at, first, value, args, params, n);
            &&& lowering.location == first.location || located_among(args, n, lowering.location)
            &&& explained(scope, lowering.outcome)
        }),
    decreases args, n,
{
    if n > 0 {
        arguments_explained(scope, at, first, value, args, params, (n - 1) as nat);
        let before = lower_arguments(scope, at, first, value, args, params, (n - 1) as nat);
        if n > 1 {
            failure_is_explained(scope, at + before.steps.len(), args[n - 1]);
        }
    }
}

} // verus!
