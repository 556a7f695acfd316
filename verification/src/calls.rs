//! What code a call becomes: which function is called, and what each of its parameters gets.
use crate::ast::{Expression, ExpressionType, Keyword};
use crate::error::{Fault, LLVMCompileErrorType, MessageView};
use crate::forms::{refused, stops_with};
use crate::ir::{Operation, Step};
use crate::lowering::{
    argument, call, lower, lower_arguments, lower_call, shorter, Lowering, Outcome,
};
use crate::meaning::{
    basic_holds, code_computes_meaning, lemma_run_adds, lemma_run_on, lemma_run_one,
    lemma_still_holds, run, Machine, State,
};
use crate::numbers::{code_fits, code_value};
use crate::scope::{MangledNames, Scope};
use crate::typing::{typing, typing_foretells_lowering, Obstacle};
use crate::value::{BasicType, BasicValue, FloatRef, IntRef, Shape, Target, Value, ValueType};
use vstd::prelude::*;

verus! {

/// Whether a call of `name` with a first argument of type `first` means the function `symbol`: the
/// one of that very name, or if there is none the one that the name is mangled to for that type.
pub open spec fn means(scope: Scope, name: Seq<char>, first: ValueType, symbol: Seq<char>) -> bool {
    &&& scope.functions.contains_key(symbol)
    &&& symbol == name || {
        &&& !scope.functions.contains_key(name)
        &&& scope.mangled.contains_key((name, first))
        &&& scope.mangled[(name, first)] == symbol
    }
}

/// If no function has the name itself, a call means the function that the name is mangled to for
/// the type of the first argument, whatever that type is. If there is neither the one nor the other
/// the call means nothing.
pub proof fn overload_by_first_argument(scope: Scope, name: Seq<char>, first: ValueType)
    ensures
        !scope.functions.contains_key(name) && scope.mangled.contains_key((name, first))
            && scope.functions.contains_key(scope.mangled[(name, first)]) ==> scope.resolve(
            name,
            first,
        ) == Some(scope.mangled[(name, first)]),
        !scope.functions.contains_key(name) && !(scope.mangled.contains_key((name, first))
            && scope.functions.contains_key(scope.mangled[(name, first)])) ==> scope.resolve(
            name,
            first,
        ) is None,
        scope.functions.contains_key(name) ==> scope.resolve(name, first) == Some(name),
        forall|symbol: Seq<char>|
            (scope.resolve(name, first) == Some(symbol)) == #[trigger] means(
                scope,
                name,
                first,
                symbol,
            ),
{
}

/// After names are declared for a function, its calls mean, for each type of the first argument,
/// the name that was declared for that type, if that is a function. Calls of other functions mean
/// what they did.
pub proof fn declared_names_are_used(
    scope: Scope,
    name: Seq<char>,
    names: MangledNames,
    other: Seq<char>,
    first: ValueType,
)
    requires
        !scope.functions.contains_key(name),
    ensures
        ({
            let after = Scope {
                mangled: scope.mangled.union_prefer_right(names.for_function(name)),
                ..scope
            };
            let functions = scope.functions;
            &&& functions.contains_key(names.for_void@) ==> after.resolve(name, ValueType::Void)
                == Some(names.for_void@)
            &&& functions.contains_key(names.for_bool@) ==> after.resolve(name, ValueType::Bool)
                == Some(names.for_bool@)
            &&& functions.contains_key(names.for_i8@) ==> after.resolve(name, ValueType::I8)
                == Some(names.for_i8@)
            &&& functions.contains_key(names.for_i16@) ==> after.resolve(name, ValueType::I16)
                == Some(names.for_i16@)
            &&& functions.contains_key(names.for_f32@) ==> after.resolve(name, ValueType::F32)
                == Some(names.for_f32@)
            &&& functions.contains_key(names.for_str@) ==> after.resolve(name, ValueType::Str)
                == Some(names.for_str@)
            &&& functions.contains_key(names.for_array@) ==> after.resolve(name, ValueType::Array)
                == Some(names.for_array@)
            &&& after.resolve(name, first) matches Some(symbol) ==> {
                ||| first is Void && symbol == names.for_void@
                ||| first is Bool && symbol == names.for_bool@
                ||| first is I8 && symbol == names.for_i8@
                ||| first is I16 && symbol == names.for_i16@
                ||| first is F32 && symbol == names.for_f32@
                ||| first is Str && symbol == names.for_str@
                ||| first is Array && symbol == names.for_array@
            }
            &&& other != name ==> after.resolve(other, first) == scope.resolve(other, first)
        }),
{
}

/// The type of a value.
pub open spec fn type_of(value: Value) -> ValueType {
    match value {
        Value::Void => ValueType::Void,
        Value::Bool { .. } => ValueType::Bool,
        Value::I8 { .. } => ValueType::I8,
        Value::I16 { .. } => ValueType::I16,
        Value::F32 { .. } => ValueType::F32,
        Value::Str { .. } => ValueType::Str,
        Value::Array { .. } => ValueType::Array,
    }
}

/// How many steps it takes to pass what came of an argument: integers are converted.
pub open spec fn conversions(outcome: Outcome<Value>) -> nat {
    match outcome {
        Outcome::Done(Value::Bool { .. }) => 1,
        Outcome::Done(Value::I8 { .. }) => 1,
        Outcome::Done(Value::I16 { .. }) => 1,
        _ => 0,
    }
}

/// How many steps come before the code of argument `i`, each argument being converted right after
/// its code.
pub open spec fn argument_start(scope: Scope, at: nat, args: Seq<Expression>, i: nat) -> nat
    decreases i,
{
    if i == 0 {
        0
    } else {
        let before = argument_start(scope, at, args, (i - 1) as nat);
        let code = lower(scope, at + before, args[i - 1]);
        before + code.steps.len() + conversions(code.outcome)
    }
}

/// What argument `i` becomes.
pub open spec fn argument_code(
    scope: Scope,
    at: nat,
    args: Seq<Expression>,
    i: nat,
) -> Lowering<Value> {
    lower(scope, at + argument_start(scope, at, args, i), args[i as int])
}

/// Whether what came of an argument can be passed for a parameter of type `param`: an integer for
/// one that is not wider, an `I8` for any integer, and anything else for the very type it has.
pub open spec fn passes(outcome: Outcome<Value>, param: BasicType) -> bool {
    match (outcome, param) {
        (Outcome::Done(Value::Bool { value }), BasicType::Int { width }) => width <= value.width,
        (Outcome::Done(Value::I16 { value }), BasicType::Int { width }) => width <= value.width,
        (Outcome::Done(Value::I8 { value }), BasicType::Int { width }) => true,
        (Outcome::Done(Value::F32 { value }), BasicType::Float { precision }) => precision
            == value.precision,
        (Outcome::Done(Value::Str { value }), BasicType::Pointer { target }) => target
            == value.target && target != Target::Unlisted,
        _ => false,
    }
}

/// Whether `steps`, the first of which has the number `at`, have the code `code` of an argument
/// from `from` on, and then its conversion to `param`, of which `passed` comes.
pub open spec fn passed_as(
    at: nat,
    code: Lowering<Value>,
    from: nat,
    param: BasicType,
    steps: Seq<Step>,
    passed: BasicValue,
) -> bool {
    let to = from + code.steps.len();
    &&& to + conversions(code.outcome) <= steps.len()
    &&& steps.subrange(from as int, to as int) == code.steps
    &&& match (code.outcome, param) {
        (Outcome::Done(Value::Bool { value }), BasicType::Int { width }) => {
            let cast = BasicValue::Int(
                IntRef { id: (at + to) as usize, width, constant: value.constant },
            );
            let operation = Operation::IntTruncate { value, width, name: "itrunc"@ };
            &&& steps[to as int] == Step { operation, result: Some(cast) }
            &&& passed == cast
        },
        (Outcome::Done(Value::I16 { value }), BasicType::Int { width }) => {
            let cast = BasicValue::Int(
                IntRef { id: (at + to) as usize, width, constant: value.constant },
            );
            let operation = Operation::IntTruncate { value, width, name: "itrunc"@ };
            &&& steps[to as int] == Step { operation, result: Some(cast) }
            &&& passed == cast
        },
        (Outcome::Done(Value::I8 { value }), BasicType::Int { width }) => {
            let cast = BasicValue::Int(
                IntRef { id: (at + to) as usize, width, constant: value.constant },
            );
            let operation = Operation::IntCast { value, width, name: "icast"@ };
            &&& steps[to as int] == Step { operation, result: Some(cast) }
            &&& passed == cast
        },
        (Outcome::Done(Value::F32 { value }), _) => passed == BasicValue::Float(value),
        (Outcome::Done(Value::Str { value }), _) => passed == BasicValue::Pointer(value),
        _ => false,
    }
}

/// Whether the code of the first `n` arguments and their conversions is where `steps` start, one
/// after the other, and `passed` has what comes of each at its place.
pub open spec fn passed_in_order(
    scope: Scope,
    at: nat,
    args: Seq<Expression>,
    params: Seq<BasicType>,
    n: nat,
    steps: Seq<Step>,
    passed: Seq<BasicValue>,
) -> bool {
    &&& passed.len() == n
    &&& forall|i: nat|
        #![trigger argument_code(scope, at, args, i)]
        i < n ==> passed_as(
            at,
            argument_code(scope, at, args, i),
            argument_start(scope, at, args, i),
            params[i as int],
            steps,
            passed[i as int],
        )
}

/// What comes after changes nothing of what was passed.
proof fn lemma_still_passed(
    at: nat,
    code: Lowering<Value>,
    from: nat,
    param: BasicType,
    steps: Seq<Step>,
    passed: BasicValue,
    more: Seq<Step>,
)
    requires
        passed_as(at, code, from, param, steps, passed),
    ensures
        passed_as(at, code, from, param, steps + more, passed),
{
    let to = from + code.steps.len();
    assert((steps + more).subrange(from as int, to as int) =~= steps.subrange(
        from as int,
        to as int,
    ));
}

/// The same of several arguments.
proof fn lemma_still_in_order(
    scope: Scope,
    at: nat,
    args: Seq<Expression>,
    params: Seq<BasicType>,
    n: nat,
    steps: Seq<Step>,
    passed: Seq<BasicValue>,
    more: Seq<Step>,
)
    requires
        passed_in_order(scope, at, args, params, n, steps, passed),
    ensures
        passed_in_order(scope, at, args, params, n, steps + more, passed),
{
    assert forall|i: nat| #![trigger argument_code(scope, at, args, i)] i < n implies passed_as(
        at,
        argument_code(scope, at, args, i),
        argument_start(scope, at, args, i),
        params[i as int],
        steps + more,
        passed[i as int],
    ) by {
        lemma_still_passed(
            at,
            argument_code(scope, at, args, i),
            argument_start(scope, at, args, i),
            params[i as int],
            steps,
            passed[i as int],
            more,
        );
    }
}

/// One argument is converted after its code.
proof fn lemma_converted(
    at: nat,
    before: Seq<Step>,
    code: Lowering<Value>,
    param: BasicType,
)
    requires
        passes(code.outcome, param),
    ensures
        ({
            let steps = before + code.steps;
            let converted = argument(at + steps.len(), code.outcome->Done_0, param);
            &&& converted.outcome matches Outcome::Done(passed)
            &&& converted.steps.len() == conversions(code.outcome)
            &&& passed_as(at, code, before.len(), param, steps + converted.steps, passed)
        }),
{
    let steps = before + code.steps;
    let converted = argument(at + steps.len(), code.outcome->Done_0, param);
    let from = before.len() as int;
    let to = (before.len() + code.steps.len()) as int;
    assert((steps + converted.steps).subrange(from, to) =~= code.steps);
    if converted.steps.len() > 0 {
        assert((steps + converted.steps)[to] == converted.steps[0]);
    }
}

/// The arguments that can be passed are passed in order.
#[verifier::rlimit(40)]
proof fn lemma_arguments(
    scope: Scope,
    at: nat,
    args: Seq<Expression>,
    params: Seq<BasicType>,
    n: nat,
)
    requires
        0 < args.len(),
        n <= args.len(),
        n <= params.len(),
        lower(scope, at, args[0]).outcome is Done,
        forall|i: nat|
            #![trigger argument_code(scope, at, args, i)]
            i < n ==> passes(argument_code(scope, at, args, i).outcome, params[i as int]),
    ensures
        ({
            let first = lower(scope, at, args[0]);
            let value = first.outcome->Done_0;
            let all = lower_arguments(scope, at, first, value, args, params, n);
            &&& all.outcome matches Outcome::Done(passed)
            &&& passed_in_order(scope, at, args, params, n, all.steps, passed)
            &&& n > 0 ==> all.steps.len() == argument_start(scope, at, args, n)
            &&& n == 0 ==> all.steps == first.steps && all.location == first.location
            &&& n > 0 ==> all.location == argument_code(scope, at, args, (n - 1) as nat).location
        }),
    decreases n,
{
    let first = lower(scope, at, args[0]);
    let value = first.outcome->Done_0;
    let all = lower_arguments(scope, at, first, value, args, params, n);
    if n == 0 {
        assert(all.steps =~= first.steps);
    } else {
        let k = (n - 1) as nat;
        lemma_arguments(scope, at, args, params, k);
        let before = lower_arguments(scope, at, first, value, args, params, k);
        let code = argument_code(scope, at, args, k);
        let param = params[k as int];
        assert(passes(code.outcome, param));
        if k == 0 {
            assert(argument_start(scope, at, args, 0) == 0);
            lemma_converted(at, Seq::empty(), code, param);
            assert(Seq::<Step>::empty() + code.steps =~= code.steps);
            assert(before.steps + Seq::<Step>::empty() =~= before.steps);
        } else {
            lemma_converted(at, before.steps, code, param);
            let more = all.steps.skip(before.steps.len() as int);
            assert(all.steps =~= before.steps + more);
            lemma_still_in_order(
                scope,
                at,
                args,
                params,
                k,
                before.steps,
                before.outcome->Done_0,
                more,
            );
        }
        let passed = all.outcome->Done_0;
        assert forall|i: nat| #![trigger argument_code(scope, at, args, i)] i < n implies
            passed_as(
            at,
            argument_code(scope, at, args, i),
            argument_start(scope, at, args, i),
            params[i as int],
            all.steps,
            passed[i as int],
        ) by {
            if i < k {
                assert(passed[i as int] == before.outcome->Done_0[i as int]);
            }
        }
    }
}

/// Whether `e` is a call of `name` with `args`.
pub open spec fn is_call(e: Expression, name: Seq<char>, args: Seq<Expression>) -> bool {
    &&& e.node matches ExpressionType::Call { function, args: all, keywords }
    &&& function.node matches ExpressionType::Identifier { name: called }
    &&& called@ == name
    &&& all@ == args
}

/// The type of the first argument, if there is one.
pub open spec fn first_type(scope: Scope, at: nat, args: Seq<Expression>) -> ValueType {
    if args.len() == 0 {
        ValueType::Void
    } else {
        type_of(lower(scope, at, args[0]).outcome->Done_0)
    }
}

/// Whether the arguments of a call of `symbol` can be passed: there is one for each parameter, and
/// it can be passed for it.
pub open spec fn all_pass(
    scope: Scope,
    at: nat,
    args: Seq<Expression>,
    symbol: Seq<char>,
) -> bool {
    let params = scope.functions[symbol].params;
    &&& scope.functions[symbol].known
    &&& params.len() <= args.len()
    &&& args.len() > 0 ==> lower(scope, at, args[0]).outcome is Done
    &&& forall|i: nat|
        #![trigger argument_code(scope, at, args, i)]
        i < params.len() ==> passes(argument_code(scope, at, args, i).outcome, params[i as int])
}

/// How many steps come before the call itself: those of the arguments that have parameters, but of
/// the first argument in any case.
pub open spec fn call_start(
    scope: Scope,
    at: nat,
    args: Seq<Expression>,
    params: nat,
) -> nat {
    if params == 0 && args.len() > 0 {
        lower(scope, at, args[0]).steps.len()
    } else {
        argument_start(scope, at, args, params)
    }
}

/// A call of a function of this name with a first argument of this type is lowered by its
/// arguments.
proof fn lemma_call(
    scope: Scope,
    at: nat,
    e: Expression,
    name: Seq<char>,
    args: Seq<Expression>,
    symbol: Seq<char>,
)
    requires
        is_call(e, name, args),
        args.len() > 0 ==> lower(scope, at, args[0]).outcome is Done,
        means(scope, name, first_type(scope, at, args), symbol),
        scope.functions[symbol].known,
    ensures
        ({
            let code = lower(scope, at, e);
            let first = if args.len() == 0 {
                Lowering {
                    location: e.location,
                    steps: Seq::empty(),
                    outcome: Outcome::Done(Value::Void),
                }
            } else {
                lower(scope, at, args[0])
            };
            let value = first.outcome->Done_0;
            let params = scope.functions[symbol].params;
            let n = shorter(args.len(), params.len());
            let all = lower_arguments(scope, at, first, value, args, params, n);
            &&& code.location == all.location
            &&& all.outcome matches Outcome::Done(passed) ==> {
                let last = call(scope, at + all.steps.len(), symbol, passed);
                code.steps == all.steps + last.steps && code.outcome == last.outcome
            }
            &&& !(all.outcome is Done) ==> code.steps == all.steps
            &&& all.outcome matches Outcome::Failed(fault) ==> code.outcome
                == Outcome::<Value>::Failed(fault)
            &&& all.outcome is Unsupported ==> code.outcome is Unsupported
        }),
{
    reveal_with_fuel(lower, 2);
    reveal_with_fuel(lower_call, 2);
    overload_by_first_argument(scope, name, first_type(scope, at, args));
}

/// A call whose arguments can be passed becomes their code and conversions, from left to right, and
/// then one instruction that calls the function that is meant, as a tail call. What parameter `i`
/// gets is what came of argument `i`, converted to the type of that parameter. The result has the
/// type that the function gives: an integer of 8 or 16 bits, a floating point number, or nothing.
/// Functions that give anything else are not called.
#[verifier::rlimit(40)]
pub proof fn call_code(
    scope: Scope,
    at: nat,
    e: Expression,
    name: Seq<char>,
    args: Seq<Expression>,
    symbol: Seq<char>,
)
    requires
        is_call(e, name, args),
        all_pass(scope, at, args, symbol),
        means(scope, name, first_type(scope, at, args), symbol),
    ensures
        ({
            let code = lower(scope, at, e);
            let params = scope.functions[symbol].params;
            let n = params.len();
            let all = call_start(scope, at, args, n);
            let id = (at + all) as usize;
            let result = scope.functions[symbol].result;
            let last = code.steps[all as int];
            let handled = match result {
                None => true,
                Some(BasicType::Int { width }) => width == 8 || width == 16,
                Some(BasicType::Float { .. }) => true,
                _ => false,
            };
            &&& args.len() == 0 ==> code.location == e.location
            &&& args.len() > 0 && n == 0 ==> {
                &&& code.location == lower(scope, at, args[0]).location
                &&& code.steps.take(all as int) == lower(scope, at, args[0]).steps
            }
            &&& n > 0 ==> code.location == argument_code(scope, at, args, (n - 1) as nat).location
            &&& handled ==> {
                &&& code.steps.len() == all + 1
                &&& last.operation matches Operation::Call {
                    function,
                    arguments,
                    name: wanted,
                    tail,
                }
                &&& function == symbol && wanted == "call"@ && tail
                &&& passed_in_order(scope, at, args, params, n, code.steps, arguments)
            }
            &&& result is None ==> {
                &&& last.result is None
                &&& code.outcome == Outcome::Done(Value::Void)
                &&& typing(scope, e) == Ok::<Shape, Obstacle>(
                    Shape { value_type: ValueType::Void, kind: None, constant: false },
                )
            }
            &&& result matches Some(BasicType::Int { width }) ==> {
                let made = IntRef { id, width, constant: false };
                let shape = Shape { value_type: ValueType::I8, kind: result, constant: false };
                &&& width == 8 || width == 16 ==> last.result == Some(BasicValue::Int(made))
                &&& width == 8 ==> code.outcome == Outcome::Done(Value::I8 { value: made })
                    && typing(scope, e) == Ok::<Shape, Obstacle>(shape)
                &&& width == 16 ==> code.outcome == Outcome::Done(Value::I16 { value: made })
                    && typing(scope, e) == Ok::<Shape, Obstacle>(
                    Shape { value_type: ValueType::I16, ..shape },
                )
            }
            &&& result matches Some(BasicType::Float { precision }) ==> {
                let made = FloatRef { id, precision, constant: false };
                &&& last.result == Some(BasicValue::Float(made))
                &&& code.outcome == Outcome::Done(Value::F32 { value: made })
                &&& typing(scope, e) == Ok::<Shape, Obstacle>(
                    Shape { value_type: ValueType::F32, kind: result, constant: false },
                )
            }
            &&& !handled ==> {
                &&& code.steps.len() == all
                &&& code.outcome is Unsupported
                &&& typing(scope, e) == Err::<Shape, Obstacle>(Obstacle::Unsupported)
            }
        }),
{
    let code = lower(scope, at, e);
    let params = scope.functions[symbol].params;
    let n = params.len();
    typing_foretells_lowering(scope, at, e);
    lemma_call(scope, at, e, name, args, symbol);
    if args.len() == 0 {
        assert(code.steps.take(0) =~= Seq::empty());
        let nothing = Lowering {
            location: e.location,
            steps: Seq::empty(),
            outcome: Outcome::Done(Value::Void),
        };
        let all = lower_arguments(scope, at, nothing, Value::Void, args, params, 0);
        assert(all.steps =~= Seq::empty());
        assert(passed_in_order(scope, at, args, params, 0, code.steps, Seq::empty()));
    } else {
        lemma_arguments(scope, at, args, params, n);
        let first = lower(scope, at, args[0]);
        let value = first.outcome->Done_0;
        let all = lower_arguments(scope, at, first, value, args, params, n);
        let passed = all.outcome->Done_0;
        let last = call(scope, at + all.steps.len(), symbol, passed);
        lemma_still_in_order(scope, at, args, params, n, all.steps, passed, last.steps);
        assert(code.steps.take(all.steps.len() as int) =~= all.steps);
    }
}

/// What stops a call before its arguments do: it does not name a function, the first argument
/// fails, no function is meant, or the one meant has parameters that no values are handled of.
pub proof fn call_refused(
    scope: Scope,
    at: nat,
    e: Expression,
    function: Box<Expression>,
    args: Vec<Expression>,
    keywords: Vec<Keyword>,
)
    requires
        e.node == (ExpressionType::Call { function, args, keywords }),
    ensures
        ({
            let code = lower(scope, at, e);
            let first = lower(scope, at, args@[0]);
            let steps = if args@.len() == 0 {
                Seq::empty()
            } else {
                first.steps
            };
            let location = if args@.len() == 0 {
                e.location
            } else {
                first.location
            };
            &&& !(function.node is Identifier) ==> {
                &&& refused(
                    code,
                    LLVMCompileErrorType::NotImplemented,
                    "Calling method is not implemented."@,
                )
                &&& code.location == e.location
                &&& typing(scope, e) == Err::<Shape, Obstacle>(Obstacle::Refused)
            }
            &&& function.node is Identifier && args@.len() > 0 && !(first.outcome is Done) ==> {
                &&& stops_with(code, first, steps)
                &&& typing(scope, e) == typing(scope, args@[0])
            }
            &&& function.node matches ExpressionType::Identifier { name } ==> (args@.len() == 0
                || first.outcome is Done ==> {
                let named = first_type(scope, at, args@);
                &&& (forall|symbol: Seq<char>| !#[trigger] means(scope, name@, named, symbol))
                    ==> {
                    &&& code.steps == steps
                    &&& code.location == location
                    &&& code.outcome == Outcome::<Value>::Failed(
                        Fault {
                            error: LLVMCompileErrorType::NameError,
                            message: MessageView::Text(name@),
                        },
                    )
                    &&& typing(scope, e) == Err::<Shape, Obstacle>(Obstacle::Refused)
                }
                &&& forall|symbol: Seq<char>|
                    #[trigger] means(scope, name@, named, symbol)
                        && !scope.functions[symbol].known ==> {
                        &&& code.steps == steps
                        &&& code.location == location
                        &&& code.outcome is Unsupported
                        &&& typing(scope, e) == Err::<Shape, Obstacle>(Obstacle::Unsupported)
                    }
            })
        }),
{
    reveal_with_fuel(lower, 2);
    reveal_with_fuel(lower_call, 2);
    typing_foretells_lowering(scope, at, e);
    if args@.len() > 0 {
        typing_foretells_lowering(scope, at, args@[0]);
    }
    if let ExpressionType::Identifier { name } = function.node {
        let named = first_type(scope, at, args@);
        overload_by_first_argument(scope, name@, named);
        if let Some(symbol) = scope.resolve(name@, named) {
            assert(means(scope, name@, named, symbol));
        }
    }
}

/// What stops the arguments stops the call: no argument after it gets code.
proof fn lemma_arguments_stop(
    scope: Scope,
    at: nat,
    first: Lowering<Value>,
    value: Value,
    args: Seq<Expression>,
    params: Seq<BasicType>,
    k: nat,
    n: nat,
)
    requires
        k <= n <= args.len(),
        !(lower_arguments(scope, at, first, value, args, params, k).outcome is Done),
    ensures
        lower_arguments(scope, at, first, value, args, params, n) == lower_arguments(
            scope,
            at,
            first,
            value,
            args,
            params,
            k,
        ),
    decreases n,
{
    if k < n {
        lemma_arguments_stop(scope, at, first, value, args, params, k, (n - 1) as nat);
    }
}

/// The first argument that fails, or that cannot be passed, stops a call there: an argument that is
/// nothing or an array with an error that tells so, and a number or a string for a parameter of
/// another type as something that is not handled.
#[verifier::rlimit(40)]
pub proof fn call_stops(
    scope: Scope,
    at: nat,
    e: Expression,
    name: Seq<char>,
    args: Seq<Expression>,
    symbol: Seq<char>,
    k: nat,
)
    requires
        is_call(e, name, args),
        k < args.len(),
        k < scope.functions[symbol].params.len(),
        lower(scope, at, args[0]).outcome is Done,
        means(scope, name, first_type(scope, at, args), symbol),
        scope.functions[symbol].known,
        forall|i: nat|
            #![trigger argument_code(scope, at, args, i)]
            i < k ==> passes(
                argument_code(scope, at, args, i).outcome,
                scope.functions[symbol].params[i as int],
            ),
        !passes(
            argument_code(scope, at, args, k).outcome,
            scope.functions[symbol].params[k as int],
        ),
    ensures
        ({
            let code = lower(scope, at, e);
            let last = argument_code(scope, at, args, k);
            let params = scope.functions[symbol].params;
            let from = argument_start(scope, at, args, k);
            &&& code.location == last.location
            &&& code.steps.len() == from + last.steps.len()
            &&& code.steps.skip(from as int) == last.steps
            &&& exists|passed: Seq<BasicValue>|
                #[trigger] passed_in_order(scope, at, args, params, k, code.steps, passed)
            &&& last.outcome matches Outcome::Failed(fault) ==> code.outcome
                == Outcome::<Value>::Failed(fault)
            &&& last.outcome matches Outcome::Done(value) ==> {
                let error = LLVMCompileErrorType::NotImplemented;
                &&& value is Void ==> code.outcome == Outcome::<Value>::Failed(
                    Fault {
                        error,
                        message: MessageView::Text(
                            "Unimplemented argument type '"@ + "Void"@ + "'"@,
                        ),
                    },
                )
                &&& value is Array ==> code.outcome == Outcome::<Value>::Failed(
                    Fault {
                        error,
                        message: MessageView::Text(
                            "Unimplemented argument type '"@ + "Array"@ + "'"@,
                        ),
                    },
                )
                &&& !(value is Void) && !(value is Array) ==> code.outcome is Unsupported
            }
            &&& last.outcome is Unsupported ==> code.outcome is Unsupported
        }),
{
    let code = lower(scope, at, e);
    let params = scope.functions[symbol].params;
    let first = lower(scope, at, args[0]);
    let value = first.outcome->Done_0;
    let before = lower_arguments(scope, at, first, value, args, params, k);
    let all = lower_arguments(scope, at, first, value, args, params, k + 1);
    let last = argument_code(scope, at, args, k);
    let from = argument_start(scope, at, args, k);
    lemma_call(scope, at, e, name, args, symbol);
    lemma_arguments(scope, at, args, params, k);
    let n = shorter(args.len(), params.len());
    let lead = if k == 0 {
        Seq::empty()
    } else {
        before.steps
    };
    assert(all.steps =~= lead + last.steps);
    assert(!(all.outcome is Done));
    lemma_arguments_stop(scope, at, first, value, args, params, k + 1, n);
    assert(code.steps.skip(from as int) =~= last.steps);
    let passed = before.outcome->Done_0;
    if k > 0 {
        lemma_still_in_order(scope, at, args, params, k, before.steps, passed, last.steps);
    }
    assert(passed_in_order(scope, at, args, params, k, code.steps, passed));
}

/// A call with fewer arguments than the function has parameters is not handled.
pub proof fn arguments_missing(
    scope: Scope,
    at: nat,
    e: Expression,
    name: Seq<char>,
    args: Seq<Expression>,
    symbol: Seq<char>,
)
    requires
        is_call(e, name, args),
        args.len() < scope.functions[symbol].params.len(),
        args.len() > 0 ==> lower(scope, at, args[0]).outcome is Done,
        means(scope, name, first_type(scope, at, args), symbol),
        scope.functions[symbol].known,
        forall|i: nat|
            #![trigger argument_code(scope, at, args, i)]
            i < args.len() ==> passes(
                argument_code(scope, at, args, i).outcome,
                scope.functions[symbol].params[i as int],
            ),
    ensures
        lower(scope, at, e).outcome is Unsupported,
        typing(scope, e) == Err::<Shape, Obstacle>(Obstacle::Unsupported),
{
    let params = scope.functions[symbol].params;
    typing_foretells_lowering(scope, at, e);
    lemma_call(scope, at, e, name, args, symbol);
    if args.len() > 0 {
        lemma_arguments(scope, at, args, params, args.len());
    }
}

/// Later arguments start later.
proof fn lemma_later(scope: Scope, at: nat, args: Seq<Expression>, i: nat, n: nat)
    requires
        i <= n,
    ensures
        argument_start(scope, at, args, i) <= argument_start(scope, at, args, n),
    decreases n,
{
    if i < n {
        lemma_later(scope, at, args, i, (n - 1) as nat);
    }
}

/// What an argument of type `value_type` that is `v` becomes for a parameter of type `param`.
pub open spec fn converted<S, V>(
    m: Machine<S, V>,
    value_type: ValueType,
    param: BasicType,
    v: V,
) -> V {
    if value_type is Bool || value_type is I16 {
        (m.int_truncate)(v, param->Int_width)
    } else if value_type is I8 {
        (m.int_cast)(v, param->Int_width)
    } else {
        v
    }
}

/// The state that argument `i` is evaluated in: what all the code before it leaves.
pub open spec fn before_argument<S, V>(
    m: Machine<S, V>,
    scope: Scope,
    state: State<S, V>,
    e: Expression,
    args: Seq<Expression>,
    i: nat,
) -> State<S, V> {
    let at = state.values.len();
    let steps = lower(scope, at, e).steps;
    run(m, state, steps.take(argument_start(scope, at, args, i) as int))
}

/// What parameter `i` gets when the code of a call runs: the value that the code of argument `i`
/// gives after the code of the arguments before it, converted to the type of the parameter.
pub open spec fn given<S, V>(
    m: Machine<S, V>,
    scope: Scope,
    state: State<S, V>,
    e: Expression,
    args: Seq<Expression>,
    params: Seq<BasicType>,
    i: nat,
) -> V {
    let now = before_argument(m, scope, state, e, args, i);
    converted(
        m,
        typing(scope, args[i as int])->Ok_0.value_type,
        params[i as int],
        code_value(m, scope, now, args[i as int]),
    )
}

/// When the code of a call runs, the function that is meant is called once, after the code of the
/// arguments, with the values of the arguments in order, each converted to the type of its
/// parameter. On a machine whose conversions keep values, parameter `i` gets just the value of
/// argument `i`. The call leaves the memory that the function leaves, and gives what it gives.
pub proof fn function_gets_arguments<S, V>(
    m: Machine<S, V>,
    scope: Scope,
    state: State<S, V>,
    e: Expression,
    name: Seq<char>,
    args: Seq<Expression>,
    symbol: Seq<char>,
)
    requires
        is_call(e, name, args),
        all_pass(scope, state.values.len(), args, symbol),
        means(scope, name, first_type(scope, state.values.len(), args), symbol),
        typing(scope, e) is Ok,
        code_fits(scope, state, e),
    ensures
        ({
            let at = state.values.len();
            let code = lower(scope, at, e);
            let params = scope.functions[symbol].params;
            let ready = run(
                m,
                state,
                code.steps.take(call_start(scope, at, args, params.len()) as int),
            );
            let passed = Seq::new(
                params.len(),
                |i: int| given(m, scope, state, e, args, params, i as nat),
            );
            let (memory, result) = (m.call)(ready.memory, symbol, passed);
            &&& run(m, state, code.steps).memory == memory
            &&& run(m, state, code.steps).values == ready.values.push(result)
            &&& !(typing(scope, e)->Ok_0.value_type is Void) ==> code_value(m, scope, state, e)
                == result
            &&& (forall|v: V, width: u32| #[trigger] (m.int_truncate)(v, width) == v) && (forall|
                v: V,
                width: u32,
            | #[trigger] (m.int_cast)(v, width) == v) ==> forall|i: nat|
                #![trigger before_argument(m, scope, state, e, args, i)]
                i < params.len() ==> passed[i as int] == code_value(
                    m,
                    scope,
                    before_argument(m, scope, state, e, args, i),
                    args[i as int],
                )
        }),
{
    let at = state.values.len();
    let code = lower(scope, at, e);
    let params = scope.functions[symbol].params;
    let n = params.len();
    let all = call_start(scope, at, args, n);
    call_code(scope, at, e, name, args, symbol);
    assert(code.steps.drop_last() =~= code.steps.take(all as int));
    let ready = run(m, state, code.steps.take(all as int));
    lemma_run_adds(m, state, code.steps.take(all as int));
    let last = code.steps[all as int];
    let arguments = last.operation->arguments;
    let passed = Seq::new(n, |i: int| given(m, scope, state, e, args, params, i as nat));
    let values = ready.values;
    assert(arguments.map_values(|argument: BasicValue| values[argument.spec_id() as int])
        =~= passed) by {
        assert forall|i: int| 0 <= i < n implies values[(
        #[trigger] arguments[i]).spec_id() as int] == passed[i] by {
            lemma_given(m, scope, state, e, args, params, n, all, arguments[i], i as nat);
        }
    }
}

/// Where the code of a call has come to the call itself, what it passes for parameter `i` is what
/// that parameter gets.
proof fn lemma_given<S, V>(
    m: Machine<S, V>,
    scope: Scope,
    state: State<S, V>,
    e: Expression,
    args: Seq<Expression>,
    params: Seq<BasicType>,
    n: nat,
    all: nat,
    passed: BasicValue,
    i: nat,
)
    requires
        i < n,
        all == argument_start(scope, state.values.len(), args, n),
        all < lower(scope, state.values.len(), e).steps.len(),
        code_fits(scope, state, e),
        passed_as(
            state.values.len(),
            argument_code(scope, state.values.len(), args, i),
            argument_start(scope, state.values.len(), args, i),
            params[i as int],
            lower(scope, state.values.len(), e).steps,
            passed,
        ),
    ensures
        ({
            let steps = lower(scope, state.values.len(), e).steps;
            run(m, state, steps.take(all as int)).values[passed.spec_id() as int] == given(
                m,
                scope,
                state,
                e,
                args,
                params,
                i,
            )
        }),
{
    let at = state.values.len();
    let steps = lower(scope, at, e).steps;
    let code = argument_code(scope, at, args, i);
    let from = argument_start(scope, at, args, i);
    let to = from + code.steps.len();
    let end = to + conversions(code.outcome);
    let arg = args[i as int];
    assert(argument_start(scope, at, args, i + 1) == end);
    lemma_later(scope, at, args, i + 1, n);
    let now = run(m, state, steps.take(from as int));
    lemma_run_adds(m, state, steps.take(from as int));
    assert(steps.take(from as int) + code.steps =~= steps.take(to as int));
    lemma_run_on(m, state, steps.take(from as int), code.steps);
    typing_foretells_lowering(scope, at + from, arg);
    code_computes_meaning(m, scope, now, arg);
    let there = run(m, state, steps.take(to as int));
    lemma_run_adds(m, state, steps.take(to as int));
    let rest = steps.subrange(end as int, all as int);
    assert(steps.take(end as int) + rest =~= steps.take(all as int));
    lemma_run_on(m, state, steps.take(end as int), rest);
    if end > to {
        assert(steps.take(to as int) + seq![steps[to as int]] =~= steps.take(end as int));
        lemma_run_on(m, state, steps.take(to as int), seq![steps[to as int]]);
        lemma_run_one(m, there, steps[to as int]);
    }
    let converted = run(m, state, steps.take(end as int));
    let v = given(m, scope, state, e, args, params, i);
    assert(basic_holds(converted.values, passed, v));
    lemma_still_holds(m, converted, rest, passed, v);
}

} // verus!
