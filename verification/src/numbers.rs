//! What holds of the numbers that the code computes, on a machine that computes with numbers as
//! LLVM says.
use crate::ast::{Comparison, Expression, ExpressionType, Location, Number, Operator};
use crate::integer::truncated;
use crate::ir::{FloatOperator, FloatPredicate, IntOperator, IntPredicate};
use crate::lowering::{float_operator, int_predicate, lower, lower_comparison};
use crate::meaning::{
    code_computes_meaning, compare_meaning, lemma_run_adds, meaning, run, Machine, State,
};
use crate::scope::Scope;
use crate::typing::{
    compare_typing, is_float, is_int, precision, typing, typing_foretells_lowering,
};
use crate::value::{BasicType, Shape};
use vstd::arithmetic::div_mod::lemma_fundamental_div_mod;
use vstd::arithmetic::power2::pow2;
use vstd::prelude::*;

verus! {

/// Whether the code of `e` is numbered within bounds in `state`.
pub open spec fn code_fits<S, V>(scope: Scope, state: State<S, V>, e: Expression) -> bool {
    state.values.len() + lower(scope, state.values.len(), e).steps.len() <= usize::MAX
}

/// The value that the code of `e` gives in `state`.
pub open spec fn code_value<S, V>(
    m: Machine<S, V>,
    scope: Scope,
    state: State<S, V>,
    e: Expression,
) -> V {
    let lowering = lower(scope, state.values.len(), e);
    let value = lowering.outcome->Done_0;
    run(m, state, lowering.steps).values[value.basic()->0.spec_id() as int]
}

/// The expression that combines `a` and `b` by `op`.
pub open spec fn combination(
    location: Location,
    a: Expression,
    op: Operator,
    b: Expression,
) -> Expression {
    Expression { location, node: ExpressionType::Binop { a: Box::new(a), op, b: Box::new(b) } }
}

/// The code of an expression that has a value gives what the expression means.
proof fn lemma_code_value<S, V>(
    m: Machine<S, V>,
    scope: Scope,
    state: State<S, V>,
    e: Expression,
)
    requires
        typing(scope, e) is Ok,
        !(typing(scope, e)->Ok_0.value_type is Void),
        code_fits(scope, state, e),
    ensures
        code_value(m, scope, state, e) == meaning(m, scope, state.memory, e).1,
{
    typing_foretells_lowering(scope, state.values.len(), e);
    code_computes_meaning(m, scope, state, e);
}

/// The quotient of `x` and `y`, rounded towards zero.
pub open spec fn quotient(x: int, y: int) -> int {
    if x >= 0 {
        x / y
    } else {
        -((-x) / y)
    }
}

/// Whether the signed division of `m` rounds towards zero and its remainder is what is left, for
/// integers as `number` reads them. Nothing is said of a division by zero, nor of the least integer
/// divided by -1.
pub open spec fn divides<S, V>(
    m: Machine<S, V>,
    number: spec_fn(V) -> int,
    least: int,
) -> bool {
    forall|x: V, y: V|
        #![trigger (m.int_math)(IntOperator::SignedDiv, x, y)]
        #![trigger (m.int_math)(IntOperator::SignedRem, x, y)]
        number(y) != 0 && !(number(x) == least && number(y) == -1) ==> {
            &&& number((m.int_math)(IntOperator::SignedDiv, x, y)) == quotient(
                number(x),
                number(y),
            )
            &&& number((m.int_math)(IntOperator::SignedRem, x, y)) == number(x) - number(y)
                * quotient(number(x), number(y))
        }
}

/// What is left of a division that rounds towards zero is less than the divisor and has the sign
/// of the dividend.
proof fn lemma_remainder(x: int, y: int)
    requires
        y != 0,
    ensures
        ({
            let rest = x - y * quotient(x, y);
            &&& quotient(x, y) * y + rest == x
            &&& rest < (if y < 0 { -y } else { y })
            &&& -rest < (if y < 0 { -y } else { y })
            &&& rest == 0 || (rest < 0 <==> x < 0)
        }),
{
    let size = if x >= 0 {
        x
    } else {
        -x
    };
    lemma_fundamental_div_mod(size, y);
    assert(0 <= size % y < (if y < 0 { -y } else { y })) by (nonlinear_arith)
        requires
            y != 0,
    ;
    let q = quotient(x, y);
    assert(q * y == y * q) by (nonlinear_arith);
    if x < 0 {
        assert(y * (-(size / y)) == -(y * (size / y))) by (nonlinear_arith);
    }
}

/// For the `//` and the `%` of the same two integers, the quotient times the divisor plus the
/// remainder is the dividend. The remainder is less than the divisor, and unless it is zero it has
/// the sign of the dividend. That is so on a machine that divides as LLVM says, and but for a
/// divisor of zero and for the least integer divided by -1.
pub proof fn quotient_and_remainder<S, V>(
    m: Machine<S, V>,
    number: spec_fn(V) -> int,
    least: int,
    scope: Scope,
    state: State<S, V>,
    location: Location,
    a: Expression,
    b: Expression,
)
    requires
        divides(m, number, least),
        typing(scope, combination(location, a, Operator::FloorDiv, b)) is Ok,
        code_fits(scope, state, combination(location, a, Operator::FloorDiv, b)),
        code_fits(scope, state, combination(location, a, Operator::Mod, b)),
        ({
            let (middle, x) = meaning(m, scope, state.memory, a);
            let y = meaning(m, scope, middle, b).1;
            number(y) != 0 && !(number(x) == least && number(y) == -1)
        }),
    ensures
        ({
            let (middle, dividend) = meaning(m, scope, state.memory, a);
            let x = number(dividend);
            let y = number(meaning(m, scope, middle, b).1);
            let q = number(
                code_value(m, scope, state, combination(location, a, Operator::FloorDiv, b)),
            );
            let rest = number(
                code_value(m, scope, state, combination(location, a, Operator::Mod, b)),
            );
            &&& q * y + rest == x
            &&& rest < (if y < 0 { -y } else { y })
            &&& -rest < (if y < 0 { -y } else { y })
            &&& rest == 0 || (rest < 0 <==> x < 0)
        }),
{
    let divided = combination(location, a, Operator::FloorDiv, b);
    let left = combination(location, a, Operator::Mod, b);
    let (middle, x) = meaning(m, scope, state.memory, a);
    let y = meaning(m, scope, middle, b).1;
    lemma_code_value(m, scope, state, divided);
    lemma_code_value(m, scope, state, left);
    lemma_remainder(number(x), number(y));
}

/// An integer literal.
pub open spec fn is_integer(e: Expression, n: int) -> bool {
    match e.node {
        ExpressionType::Number { value: Number::Integer { value } } => value@ == n,
        ExpressionType::Unop { op, a } => op is Neg && match a.node {
            ExpressionType::Number { value: Number::Integer { value } } => -value@ == n,
            _ => false,
        },
        _ => false,
    }
}

/// A floating point literal.
pub open spec fn is_decimal(e: Expression) -> bool {
    match e.node {
        ExpressionType::Number { value: Number::Float { .. } } => true,
        ExpressionType::Unop { op, a } => op is Neg
            && a.node matches ExpressionType::Number { value: Number::Float { .. } },
        _ => false,
    }
}

/// Literals have shapes, and mean the same whatever the memory holds.
proof fn lemma_literal<S, V>(m: Machine<S, V>, scope: Scope, memory: S, e: Expression, n: int)
    requires
        is_integer(e, n) || is_decimal(e),
    ensures
        typing(scope, e) is Ok,
        is_integer(e, n) ==> is_int(typing(scope, e)->Ok_0),
        is_decimal(e) ==> is_float(typing(scope, e)->Ok_0),
        precision(typing(scope, e)->Ok_0) is Single,
        meaning(m, scope, memory, e).0 == memory,
        is_integer(e, n) ==> meaning(m, scope, memory, e).1 == (m.const_int)(
            16,
            truncated(n),
            true,
        ),
        forall|other: S| #[trigger]
            meaning(m, scope, other, e).1 == meaning(m, scope, memory, e).1,
{
}

/// An integer literal beside a floating point number in single precision gives what the floating
/// point literal of the same value gives there, on either side and for every operator that takes
/// floating point numbers. The machine must convert the integer to what the literal is.
pub proof fn integer_beside_float<S, V>(
    m: Machine<S, V>,
    scope: Scope,
    state: State<S, V>,
    location: Location,
    integer: Expression,
    n: int,
    decimal: Expression,
    op: Operator,
    x: Expression,
)
    requires
        is_integer(integer, n),
        is_decimal(decimal),
        (m.signed_to_float)((m.const_int)(16, truncated(n), true)) == meaning(
            m,
            scope,
            state.memory,
            decimal,
        ).1,
        float_operator(op) is Some,
        typing(scope, x) matches Ok(shape) && is_float(shape) && precision(shape) is Single,
        code_fits(scope, state, combination(location, integer, op, x)),
        code_fits(scope, state, combination(location, decimal, op, x)),
        code_fits(scope, state, combination(location, x, op, integer)),
        code_fits(scope, state, combination(location, x, op, decimal)),
    ensures
        ({
            let integer_first = combination(location, integer, op, x);
            let decimal_first = combination(location, decimal, op, x);
            let integer_last = combination(location, x, op, integer);
            let decimal_last = combination(location, x, op, decimal);
            &&& typing(scope, integer_first) matches Ok(shape) && shape.value_type is F32
            &&& typing(scope, decimal_first) matches Ok(shape) && shape.value_type is F32
            &&& typing(scope, integer_last) matches Ok(shape) && shape.value_type is F32
            &&& typing(scope, decimal_last) matches Ok(shape) && shape.value_type is F32
            &&& code_value(m, scope, state, integer_first) == code_value(
                m,
                scope,
                state,
                decimal_first,
            )
            &&& code_value(m, scope, state, integer_last) == code_value(
                m,
                scope,
                state,
                decimal_last,
            )
        }),
{
    let after = meaning(m, scope, state.memory, x).0;
    lemma_literal(m, scope, state.memory, integer, n);
    lemma_literal(m, scope, state.memory, decimal, n);
    lemma_literal(m, scope, after, integer, n);
    lemma_literal(m, scope, after, decimal, n);
    lemma_code_value(m, scope, state, combination(location, integer, op, x));
    lemma_code_value(m, scope, state, combination(location, decimal, op, x));
    lemma_code_value(m, scope, state, combination(location, x, op, integer));
    lemma_code_value(m, scope, state, combination(location, x, op, decimal));
}

/// How the values of a machine are read.
#[verifier::reject_recursive_types(V)]
pub struct Reading<V> {
    /// The integer that a value is.
    pub number: spec_fn(V) -> int,
    /// Whether a value of one bit is true.
    pub truth: spec_fn(V) -> bool,
    /// Whether a floating point number is less than another. Neither is if one is not a number.
    pub less: spec_fn(V, V) -> bool,
    /// Whether two floating point numbers are equal.
    pub equal: spec_fn(V, V) -> bool,
}

/// What LLVM says that a comparison of integers tells.
pub open spec fn int_holds(predicate: IntPredicate, x: int, y: int) -> bool {
    match predicate {
        IntPredicate::EQ => x == y,
        IntPredicate::NE => x != y,
        IntPredicate::SGT => x > y,
        IntPredicate::SLT => x < y,
        IntPredicate::SGE => x >= y,
        IntPredicate::SLE => x <= y,
    }
}

/// What LLVM says that an ordered comparison of floating point numbers tells.
pub open spec fn float_holds<V>(
    reading: Reading<V>,
    predicate: FloatPredicate,
    x: V,
    y: V,
) -> bool {
    match predicate {
        FloatPredicate::OEQ => (reading.equal)(x, y),
        FloatPredicate::ONE => (reading.less)(x, y) || (reading.less)(y, x),
        FloatPredicate::OGT => (reading.less)(y, x),
        FloatPredicate::OLT => (reading.less)(x, y),
        FloatPredicate::OGE => (reading.less)(y, x) || (reading.equal)(x, y),
        FloatPredicate::OLE => (reading.less)(x, y) || (reading.equal)(x, y),
    }
}

/// Whether `m` compares as LLVM says.
pub open spec fn compares<S, V>(m: Machine<S, V>, reading: Reading<V>) -> bool {
    &&& forall|predicate: IntPredicate, x: V, y: V|
        (reading.truth)(#[trigger] (m.int_compare)(predicate, x, y)) == int_holds(
            predicate,
            (reading.number)(x),
            (reading.number)(y),
        )
    &&& forall|predicate: FloatPredicate, x: V, y: V|
        (reading.truth)(#[trigger] (m.float_compare)(predicate, x, y)) == float_holds(
            reading,
            predicate,
            x,
            y,
        )
    &&& forall|x: V, y: V| #[trigger] (reading.equal)(x, y) == (reading.equal)(y, x)
}

/// Whether `e` compares `a` and `b` by `op`.
pub open spec fn compares_by(
    e: Expression,
    a: Expression,
    op: Comparison,
    b: Expression,
) -> bool {
    &&& e.node matches ExpressionType::Compare { vals, ops }
    &&& vals@ == seq![a, b]
    &&& ops@ == seq![op]
}

/// The operator that tells of `y` and `x` what `op` tells of `x` and `y`.
pub open spec fn mirrored(op: Comparison) -> Comparison {
    match op {
        Comparison::Less => Comparison::Greater,
        Comparison::Greater => Comparison::Less,
        Comparison::LessOrEqual => Comparison::GreaterOrEqual,
        Comparison::GreaterOrEqual => Comparison::LessOrEqual,
        _ => op,
    }
}

/// The operator that tells the opposite of `op`.
pub open spec fn negated(op: Comparison) -> Comparison {
    match op {
        Comparison::Equal => Comparison::NotEqual,
        Comparison::NotEqual => Comparison::Equal,
        Comparison::Less => Comparison::GreaterOrEqual,
        Comparison::GreaterOrEqual => Comparison::Less,
        Comparison::Greater => Comparison::LessOrEqual,
        Comparison::LessOrEqual => Comparison::Greater,
        _ => op,
    }
}

/// What a comparison of `a` and `b` has for a shape, and what it means.
proof fn lemma_compares<S, V>(
    m: Machine<S, V>,
    scope: Scope,
    memory: S,
    e: Expression,
    a: Expression,
    op: Comparison,
    b: Expression,
)
    requires
        compares_by(e, a, op, b),
    ensures
        typing(scope, e) == compare_typing(scope, seq![a, b], seq![op]),
        meaning(m, scope, memory, e) == compare_meaning(m, scope, memory, seq![a, b], seq![op]),
{
}

/// A comparison of two integer literals, or of two floating point literals, tells what the mirrored
/// comparison of the two the other way round tells, on a machine that compares as LLVM says.
pub proof fn mirrored_comparison<S, V>(
    m: Machine<S, V>,
    reading: Reading<V>,
    scope: Scope,
    state: State<S, V>,
    e: Expression,
    mirror: Expression,
    a: Expression,
    op: Comparison,
    b: Expression,
    x: int,
    y: int,
)
    requires
        compares(m, reading),
        is_integer(a, x) && is_integer(b, y) || is_decimal(a) && is_decimal(b),
        int_predicate(op) is Some,
        compares_by(e, a, op, b),
        compares_by(mirror, b, mirrored(op), a),
        code_fits(scope, state, e),
        code_fits(scope, state, mirror),
    ensures
        typing(scope, e) matches Ok(shape) && shape.value_type is Bool,
        typing(scope, mirror) matches Ok(shape) && shape.value_type is Bool,
        (reading.truth)(code_value(m, scope, state, e)) == (reading.truth)(
            code_value(m, scope, state, mirror),
        ),
{
    lemma_literal(m, scope, state.memory, a, x);
    lemma_literal(m, scope, state.memory, b, y);
    lemma_compares(m, scope, state.memory, e, a, op, b);
    lemma_compares(m, scope, state.memory, mirror, b, mirrored(op), a);
    lemma_code_value(m, scope, state, e);
    lemma_code_value(m, scope, state, mirror);
}

/// A comparison of two integers tells the opposite of the negated comparison of them, on a machine
/// that compares as LLVM says.
pub proof fn negated_comparison<S, V>(
    m: Machine<S, V>,
    reading: Reading<V>,
    scope: Scope,
    state: State<S, V>,
    e: Expression,
    opposite: Expression,
    a: Expression,
    op: Comparison,
    b: Expression,
)
    requires
        compares(m, reading),
        compares_by(e, a, op, b),
        compares_by(opposite, a, negated(op), b),
        typing(scope, e) is Ok,
        typing(scope, a) matches Ok(shape) && is_int(shape),
        code_fits(scope, state, e),
        code_fits(scope, state, opposite),
    ensures
        typing(scope, opposite) is Ok,
        (reading.truth)(code_value(m, scope, state, e)) == !(reading.truth)(
            code_value(m, scope, state, opposite),
        ),
{
    lemma_compares(m, scope, state.memory, e, a, op, b);
    lemma_compares(m, scope, state.memory, opposite, a, negated(op), b);
    lemma_code_value(m, scope, state, e);
    lemma_code_value(m, scope, state, opposite);
}

/// The state after the code of `e`.
pub open spec fn after<S, V>(
    m: Machine<S, V>,
    scope: Scope,
    state: State<S, V>,
    e: Expression,
) -> State<S, V> {
    run(m, state, lower(scope, state.values.len(), e).steps)
}

/// The values of two operands, the right one evaluated after the left one.
pub open spec fn operand_values<S, V>(
    m: Machine<S, V>,
    scope: Scope,
    state: State<S, V>,
    a: Expression,
    b: Expression,
) -> (V, V) {
    (code_value(m, scope, state, a), code_value(m, scope, after(m, scope, state, a), b))
}

/// The code of two operands gives what they mean, one after the other.
proof fn lemma_operands<S, V>(
    m: Machine<S, V>,
    scope: Scope,
    state: State<S, V>,
    a: Expression,
    b: Expression,
)
    requires
        typing(scope, a) is Ok && !(typing(scope, a)->Ok_0.value_type is Void),
        typing(scope, b) is Ok && !(typing(scope, b)->Ok_0.value_type is Void),
        ({
            let left = lower(scope, state.values.len(), a).steps;
            let right = lower(scope, state.values.len() + left.len(), b).steps;
            state.values.len() + left.len() + right.len() <= usize::MAX
        }),
    ensures
        ({
            let (middle, x) = meaning(m, scope, state.memory, a);
            let y = meaning(m, scope, middle, b).1;
            operand_values(m, scope, state, a, b) == (x, y)
        }),
{
    let left = lower(scope, state.values.len(), a);
    lemma_code_value(m, scope, state, a);
    typing_foretells_lowering(scope, state.values.len(), a);
    code_computes_meaning(m, scope, state, a);
    lemma_run_adds(m, state, left.steps);
    lemma_code_value(m, scope, after(m, scope, state, a), b);
}

/// Operands have no more code than the whole.
proof fn lemma_operands_fit(scope: Scope, at: nat, e: Expression, a: Expression, b: Expression)
    requires
        typing(scope, e) is Ok,
        (exists|location: Location, op: Operator| e == #[trigger] combination(location, a, op, b))
            || exists|op: Comparison| #[trigger] compares_by(e, a, op, b),
    ensures
        lower(scope, at, a).steps.len() + lower(
            scope,
            at + lower(scope, at, a).steps.len(),
            b,
        ).steps.len() <= lower(scope, at, e).steps.len(),
{
    let left = lower(scope, at, a);
    typing_foretells_lowering(scope, at, e);
    if exists|op: Comparison| #[trigger] compares_by(e, a, op, b) {
        let op = choose|op: Comparison| #[trigger] compares_by(e, a, op, b);
        reveal_with_fuel(lower, 2);
        reveal_with_fuel(lower_comparison, 2);
    }
}

/// Whether two integers are the same modulo 2 to the power `width`.
pub open spec fn same_bits(x: int, y: int, width: u32) -> bool {
    (x - y) % (pow2(width as nat) as int) == 0
}

/// Whether `m` adds, subtracts and multiplies integers of `width` bits, as `number` reads them,
/// modulo 2 to the power `width`.
pub open spec fn calculates<S, V>(
    m: Machine<S, V>,
    number: spec_fn(V) -> int,
    width: u32,
) -> bool {
    &&& forall|x: V, y: V|
        same_bits(
            number(#[trigger] (m.int_math)(IntOperator::Add, x, y)),
            number(x) + number(y),
            width,
        )
    &&& forall|x: V, y: V|
        same_bits(
            number(#[trigger] (m.int_math)(IntOperator::Sub, x, y)),
            number(x) - number(y),
            width,
        )
    &&& forall|x: V, y: V|
        same_bits(
            number(#[trigger] (m.int_math)(IntOperator::Mul, x, y)),
            number(x) * number(y),
            width,
        )
}

/// The code of `a + b`, `a - b` and `a * b` gives the sum, the difference and the product of what
/// the code of `a` and the code of `b` give, for any two integers of one width, modulo 2 to the
/// power of that width. `//` gives the quotient, rounded towards zero, and `%` what is left of it,
/// but for a divisor of zero and for the least integer divided by -1.
pub proof fn integer_arithmetic<S, V>(
    m: Machine<S, V>,
    number: spec_fn(V) -> int,
    least: int,
    width: u32,
    scope: Scope,
    state: State<S, V>,
    location: Location,
    a: Expression,
    op: Operator,
    b: Expression,
)
    requires
        calculates(m, number, width),
        divides(m, number, least),
        op is Add || op is Sub || op is Mult || op is FloorDiv || op is Mod,
        typing(scope, a) matches Ok(shape) && (shape.value_type is I8 || shape.value_type is I16)
            && shape.kind == Some(BasicType::Int { width }),
        typing(scope, b) matches Ok(shape) && (shape.value_type is I8 || shape.value_type is I16)
            && shape.kind == Some(BasicType::Int { width }),
        code_fits(scope, state, combination(location, a, op, b)),
    ensures
        ({
            let e = combination(location, a, op, b);
            let (left, right) = operand_values(m, scope, state, a, b);
            let (x, y) = (number(left), number(right));
            let r = number(code_value(m, scope, state, e));
            &&& typing(scope, e) matches Ok(shape) && shape.value_type is I16 && shape.kind == Some(
                BasicType::Int { width },
            )
            &&& op is Add ==> same_bits(r, x + y, width)
            &&& op is Sub ==> same_bits(r, x - y, width)
            &&& op is Mult ==> same_bits(r, x * y, width)
            &&& op is FloorDiv && y != 0 && !(x == least && y == -1) ==> r == quotient(x, y)
            &&& op is Mod && y != 0 && !(x == least && y == -1) ==> r == x - y * quotient(x, y)
        }),
{
    let e = combination(location, a, op, b);
    lemma_operands_fit(scope, state.values.len(), e, a, b);
    lemma_operands(m, scope, state, a, b);
    lemma_code_value(m, scope, state, e);
}

/// The number in floating point that an operand is: an integer is converted.
pub open spec fn in_float<S, V>(m: Machine<S, V>, shape: Shape, x: V) -> V {
    if shape.value_type is F32 {
        x
    } else {
        (m.signed_to_float)(x)
    }
}

/// The code of `+`, `-`, `*`, `/` and `%` between two numbers one of which is a floating point
/// number gives the sum, the difference, the product, the quotient and the remainder that the
/// machine computes of what the code of the operands gives, in this order, integers converted.
pub proof fn float_arithmetic<S, V>(
    m: Machine<S, V>,
    scope: Scope,
    state: State<S, V>,
    location: Location,
    a: Expression,
    op: Operator,
    b: Expression,
)
    requires
        ({
            let e = combination(location, a, op, b);
            &&& typing(scope, e) is Ok
            &&& code_fits(scope, state, e)
        }),
        typing(scope, a) matches Ok(left) && typing(scope, b) matches Ok(right) && (
        left.value_type is F32 || right.value_type is F32),
    ensures
        ({
            let e = combination(location, a, op, b);
            let (left, right) = operand_values(m, scope, state, a, b);
            let x = in_float(m, typing(scope, a)->Ok_0, left);
            let y = in_float(m, typing(scope, b)->Ok_0, right);
            let r = code_value(m, scope, state, e);
            &&& op is Add || op is Sub || op is Mult || op is Div || op is Mod
            &&& op is Add ==> r == (m.float_math)(FloatOperator::Add, x, y)
            &&& op is Sub ==> r == (m.float_math)(FloatOperator::Sub, x, y)
            &&& op is Mult ==> r == (m.float_math)(FloatOperator::Mul, x, y)
            &&& op is Div ==> r == (m.float_math)(FloatOperator::Div, x, y)
            &&& op is Mod ==> r == (m.float_math)(FloatOperator::Rem, x, y)
        }),
{
    let e = combination(location, a, op, b);
    lemma_operands_fit(scope, state.values.len(), e, a, b);
    lemma_operands(m, scope, state, a, b);
    lemma_code_value(m, scope, state, e);
}

/// The code of `/` between any two integers gives the quotient that the machine computes of the two
/// in single precision, the left one divided by the right one. It must convert constants as it
/// converts other integers.
pub proof fn integer_division<S, V>(
    m: Machine<S, V>,
    scope: Scope,
    state: State<S, V>,
    location: Location,
    a: Expression,
    b: Expression,
)
    requires
        forall|x: V| #[trigger] (m.const_signed_to_float)(x) == (m.signed_to_float)(x),
        typing(scope, a) matches Ok(shape) && (shape.value_type is I8 || shape.value_type is I16),
        typing(scope, b) matches Ok(shape) && (shape.value_type is I8 || shape.value_type is I16),
        code_fits(scope, state, combination(location, a, Operator::Div, b)),
    ensures
        ({
            let e = combination(location, a, Operator::Div, b);
            let (x, y) = operand_values(m, scope, state, a, b);
            &&& typing(scope, e) matches Ok(shape) && shape.value_type is F32
            &&& code_value(m, scope, state, e) == (m.float_math)(
                FloatOperator::Div,
                (m.signed_to_float)(x),
                (m.signed_to_float)(y),
            )
        }),
{
    let e = combination(location, a, Operator::Div, b);
    lemma_operands_fit(scope, state.values.len(), e, a, b);
    lemma_operands(m, scope, state, a, b);
    lemma_code_value(m, scope, state, e);
}

/// The code of a comparison of two integers of one width tells of what the code of the two gives
/// just what the operator says, on a machine that compares as LLVM says: `==` whether they are
/// equal, `!=` whether they differ, and `<`, `<=`, `>` and `>=` how they are ordered.
pub proof fn integer_comparison<S, V>(
    m: Machine<S, V>,
    reading: Reading<V>,
    scope: Scope,
    state: State<S, V>,
    e: Expression,
    a: Expression,
    op: Comparison,
    b: Expression,
)
    requires
        compares(m, reading),
        compares_by(e, a, op, b),
        op is Equal || op is NotEqual || op is Less || op is LessOrEqual || op is Greater
            || op is GreaterOrEqual,
        typing(scope, a) matches Ok(shape) && (shape.value_type is I8 || shape.value_type is I16),
        typing(scope, b) matches Ok(shape) && (shape.value_type is I8 || shape.value_type is I16),
        typing(scope, a)->Ok_0.kind == typing(scope, b)->Ok_0.kind,
        code_fits(scope, state, e),
    ensures
        ({
            let (left, right) = operand_values(m, scope, state, a, b);
            let x = (reading.number)(left);
            let y = (reading.number)(right);
            let told = (reading.truth)(code_value(m, scope, state, e));
            &&& typing(scope, e) matches Ok(shape) && shape.value_type is Bool
            &&& op is Equal ==> told == (x == y)
            &&& op is NotEqual ==> told == (x != y)
            &&& op is Less ==> told == (x < y)
            &&& op is LessOrEqual ==> told == (x <= y)
            &&& op is Greater ==> told == (x > y)
            &&& op is GreaterOrEqual ==> told == (x >= y)
        }),
{
    lemma_compares(m, scope, state.memory, e, a, op, b);
    lemma_operands_fit(scope, state.values.len(), e, a, b);
    lemma_operands(m, scope, state, a, b);
    lemma_code_value(m, scope, state, e);
}

/// The same of two floating point numbers of one precision. Where one of them is not a number they
/// are not ordered, and nothing holds of them, not even that they differ.
pub proof fn float_comparison<S, V>(
    m: Machine<S, V>,
    reading: Reading<V>,
    scope: Scope,
    state: State<S, V>,
    e: Expression,
    a: Expression,
    op: Comparison,
    b: Expression,
)
    requires
        compares(m, reading),
        compares_by(e, a, op, b),
        op is Equal || op is NotEqual || op is Less || op is LessOrEqual || op is Greater
            || op is GreaterOrEqual,
        typing(scope, a) matches Ok(shape) && shape.value_type is F32,
        typing(scope, b) matches Ok(shape) && shape.value_type is F32,
        typing(scope, a)->Ok_0.kind == typing(scope, b)->Ok_0.kind,
        code_fits(scope, state, e),
    ensures
        ({
            let (x, y) = operand_values(m, scope, state, a, b);
            let told = (reading.truth)(code_value(m, scope, state, e));
            let (less, equal) = (reading.less, reading.equal);
            &&& typing(scope, e) matches Ok(shape) && shape.value_type is Bool
            &&& op is Equal ==> told == equal(x, y)
            &&& op is NotEqual ==> told == (less(x, y) || less(y, x))
            &&& op is Less ==> told == less(x, y)
            &&& op is LessOrEqual ==> told == (less(x, y) || equal(x, y))
            &&& op is Greater ==> told == less(y, x)
            &&& op is GreaterOrEqual ==> told == (less(y, x) || equal(x, y))
        }),
{
    lemma_compares(m, scope, state.memory, e, a, op, b);
    lemma_operands_fit(scope, state.values.len(), e, a, b);
    lemma_operands(m, scope, state, a, b);
    lemma_code_value(m, scope, state, e);
}

} // verus!
