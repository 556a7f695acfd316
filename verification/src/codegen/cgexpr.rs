//! Code generation for expressions.
use crate::ast::{
    try_get_constant_string, Comparison, Expression, ExpressionType, Location, Number, Operator,
    StringGroup, UnaryOperator,
};
use crate::codegen::{carried_out, emitted, CodeGen};
use crate::error::{LLVMCompileError, LLVMCompileErrorType, Message, MessageView};
use crate::ir::{defined, kept, value_defined, FloatPredicate, IntPredicate};
use crate::lowering::{
    argument, array, as_float, as_int, at_once, binary, bool_literal, both, call, comparison,
    division_step, extend, float_math_step, float_math_value, float_of_int, float_operator,
    identifier, int_binary, lower, lower_arguments, lower_call, lower_comparison, lower_elements,
    lower_list, lower_operator, makes_array, number, shorter, stop, string, unary, Emission,
    Lowering, Outcome,
};
use crate::scope::{optional_text, Scope, Variable};
use crate::type_text::max_width;
use crate::typing::{typing, typing_foretells_lowering, Obstacle};
use crate::value::{definite, BasicType, BasicValue, FloatRef, IntRef, Shape, Value, ValueType};
use vstd::prelude::*;

verus! {

impl Value {
    /// The integer that a value of type `I8` or `I16` is.
    fn int_value(self) -> (r: Option<IntRef>)
        ensures
            r == as_int(self),
    {
        match self {
            Value::I8 { value } => Some(value),
            Value::I16 { value } => Some(value),
            _ => None,
        }
    }

    /// The floating point number that a value of type `F32` is.
    fn float_value(self) -> (r: Option<FloatRef>)
        ensures
            r == as_float(self),
    {
        match self {
            Value::F32 { value } => Some(value),
            _ => None,
        }
    }
}

impl<'ctx> CodeGen<'ctx> {
    /// Sets the place that errors are reported at.
    fn set_loc(&mut self, location: Location)
        requires
            old(self).wf(),
        ensures
            final(self).wf(),
            final(self).scope() == old(self).scope(),
            final(self).declared() == old(self).declared(),
            final(self).listed() == old(self).listed(),
            final(self).block() == old(self).block(),
            final(self).steps() == old(self).steps(),
            final(self).values() == old(self).values(),
            final(self).location() == location,
    {
        self.location = location;
    }

    /// An error with a text as its message.
    fn err<'e>(&self, error: LLVMCompileErrorType, text: String) -> (r: LLVMCompileError<'e>)
        ensures
            r.location == self.location(),
            r.error == error,
            r.message@ == MessageView::Text(text@),
    {
        LLVMCompileError { location: self.location, error, message: Message::Text(text) }
    }

    /// Combines two floating point numbers.
    fn float_math(&mut self, op: Operator, lhs: FloatRef, rhs: FloatRef) -> (r: FloatRef)
        requires
            old(self).wf(),
            float_operator(op) is Some,
            defined(old(self).steps(), BasicValue::Float(lhs)),
            defined(old(self).steps(), BasicValue::Float(rhs)),
            lhs.precision == rhs.precision,
        ensures
            r == float_math_value(old(self).steps().len(), lhs, rhs),
            final(self).wf(),
            final(self).scope() == old(self).scope(),
            final(self).declared() == old(self).declared(),
            final(self).listed() == old(self).listed(),
            final(self).block() == old(self).block(),
            final(self).location() == old(self).location(),
            final(self).steps() == old(self).steps().push(
                float_math_step(old(self).steps().len(), float_operator(op)->0, lhs, rhs),
            ),
            final(self).steps().len() <= usize::MAX,
            kept(old(self).values(), final(self).values()),
    {
        match op {
            Operator::Add => self.ir.build_float_add(lhs, rhs, "add"),
            Operator::Sub => self.ir.build_float_sub(lhs, rhs, "sub"),
            Operator::Mult => self.ir.build_float_mul(lhs, rhs, "mul"),
            Operator::Div => self.ir.build_float_div(lhs, rhs, "div"),
            _ => self.ir.build_float_rem(lhs, rhs, "mod"),
        }
    }

    /// Converts a dividend or a divisor to single precision.
    fn divided(&mut self, value: IntRef) -> (r: FloatRef)
        requires
            old(self).wf(),
            defined(old(self).steps(), BasicValue::Int(value)),
        ensures
            r == float_of_int(old(self).steps().len(), value),
            final(self).wf(),
            final(self).scope() == old(self).scope(),
            final(self).declared() == old(self).declared(),
            final(self).listed() == old(self).listed(),
            final(self).block() == old(self).block(),
            final(self).location() == old(self).location(),
            final(self).steps() == old(self).steps().push(
                division_step(old(self).steps().len(), value),
            ),
            final(self).steps().len() <= usize::MAX,
            kept(old(self).values(), final(self).values()),
    {
        if value.constant {
            self.ir.const_signed_to_float(value)
        } else {
            self.ir.build_signed_to_float(value, "sitofp")
        }
    }

    /// Combines two integers.
    fn int_math(&mut self, lhs: IntRef, op: Operator, rhs: IntRef) -> (r: Value)
        requires
            old(self).wf(),
            int_binary(old(self).steps().len(), lhs, op, rhs).outcome is Done,
            defined(old(self).steps(), BasicValue::Int(lhs)),
            defined(old(self).steps(), BasicValue::Int(rhs)),
        ensures
            emitted(
                *old(self),
                *final(self),
                int_binary(old(self).steps().len(), lhs, op, rhs),
                Ok(r),
            ),
            value_defined(final(self).steps(), r),
    {
        let ghost at = self.steps().len();
        // A quotient is a floating point number.
        if op == Operator::Div {
            let x = self.divided(lhs);
            let y = self.divided(rhs);
            let value = self.ir.build_float_div(x, y, "div");
            assert(self.steps() =~= old(self).steps() + int_binary(at, lhs, op, rhs).steps);
            return Value::F32 { value };
        }
        let value = match op {
            Operator::Add => self.ir.build_int_add(lhs, rhs, "add"),
            Operator::Sub => self.ir.build_int_sub(lhs, rhs, "sub"),
            Operator::Mult => self.ir.build_int_mul(lhs, rhs, "mul"),
            Operator::FloorDiv => self.ir.build_int_signed_div(lhs, rhs, "fld"),
            _ => self.ir.build_int_signed_rem(lhs, rhs, "mod"),
        };
        assert(self.steps() =~= old(self).steps() + int_binary(at, lhs, op, rhs).steps);
        Value::I16 { value }
    }

    /// Combines two values: two integers as such, and an integer and a floating point number after
    /// converting the integer.
    fn operate(&mut self, left: Value, op: Operator, right: Value) -> (r: Value)
        requires
            old(self).wf(),
            binary(old(self).steps().len(), left, op, right).outcome is Done,
            value_defined(old(self).steps(), left),
            value_defined(old(self).steps(), right),
        ensures
            emitted(
                *old(self),
                *final(self),
                binary(old(self).steps().len(), left, op, right),
                Ok(r),
            ),
            value_defined(final(self).steps(), r),
    {
        let ghost at = self.steps().len();
        let (left_int, left_float) = (left.int_value(), left.float_value());
        let (right_int, right_float) = (right.int_value(), right.float_value());
        let value = match (left_int, left_float, right_int, right_float) {
            // Between int and int
            (Some(lhs), _, Some(rhs), _) => {
                return self.int_math(lhs, op, rhs);
            },
            // Between int and float
            (Some(lhs), _, _, Some(rhs)) => {
                let cast = self.ir.build_signed_to_float(lhs, "sitofp");
                self.float_math(op, cast, rhs)
            },
            // Between float and float
            (_, Some(lhs), _, Some(rhs)) => self.float_math(op, lhs, rhs),
            // Between float and int
            (_, Some(lhs), Some(rhs), _) => {
                let cast = self.ir.build_signed_to_float(rhs, "sitofp");
                self.float_math(op, lhs, cast)
            },
            _ => {
                return Value::Void;
            },
        };
        assert(self.steps() =~= old(self).steps() + binary(at, left, op, right).steps);
        Value::F32 { value }
    }

    /// Compares two values: two integers or two floating point numbers.
    fn compare(&mut self, left: Value, op: Comparison, right: Value) -> (r: Value)
        requires
            old(self).wf(),
            comparison(old(self).steps().len(), left, op, right).outcome is Done,
            value_defined(old(self).steps(), left),
            value_defined(old(self).steps(), right),
        ensures
            emitted(
                *old(self),
                *final(self),
                comparison(old(self).steps().len(), left, op, right),
                Ok(r),
            ),
            value_defined(final(self).steps(), r),
    {
        let ghost at = self.steps().len();
        let (left_int, left_float) = (left.int_value(), left.float_value());
        let (right_int, right_float) = (right.int_value(), right.float_value());
        let value = match (left_int, left_float, right_int, right_float) {
            (Some(lhs), _, Some(rhs), _) => {
                let predicate = match op {
                    Comparison::Equal => IntPredicate::EQ,
                    Comparison::NotEqual => IntPredicate::NE,
                    Comparison::Greater => IntPredicate::SGT,
                    Comparison::Less => IntPredicate::SLT,
                    Comparison::GreaterOrEqual => IntPredicate::SGE,
                    _ => IntPredicate::SLE,
                };
                self.ir.build_int_compare(predicate, lhs, rhs, "a")
            },
            (_, Some(lhs), _, Some(rhs)) => {
                let predicate = match op {
                    Comparison::Equal => FloatPredicate::OEQ,
                    Comparison::NotEqual => FloatPredicate::ONE,
                    Comparison::Greater => FloatPredicate::OGT,
                    Comparison::Less => FloatPredicate::OLT,
                    Comparison::GreaterOrEqual => FloatPredicate::OGE,
                    _ => FloatPredicate::OLE,
                };
                self.ir.build_float_compare(predicate, lhs, rhs, "a")
            },
            _ => {
                return Value::Void;
            },
        };
        assert(self.steps() =~= old(self).steps() + comparison(at, left, op, right).steps);
        Value::Bool { value }
    }

    /// Converts an argument to the type of the parameter that it is for.
    fn convert_argument<'e>(&mut self, value: Value, param: BasicType) -> (r: Result<
        BasicValue,
        LLVMCompileError<'e>,
    >)
        requires
            old(self).wf(),
            !(argument(old(self).steps().len(), value, param).outcome is Unsupported),
            value_defined(old(self).steps(), value),
            param matches BasicType::Int { width } ==> 1 <= width <= max_width(),
        ensures
            emitted(
                *old(self),
                *final(self),
                argument(old(self).steps().len(), value, param),
                r,
            ),
            r matches Ok(passed) ==> {
                &&& defined(final(self).steps(), passed)
                &&& passed.kind() == param
                &&& definite(param)
            },
    {
        let ghost at = self.steps().len();
        let passed = match (value, param) {
            (Value::Bool { value }, BasicType::Int { width }) => BasicValue::Int(
                self.ir.build_int_truncate(value, width, "itrunc"),
            ),
            (Value::I8 { value }, BasicType::Int { width }) => BasicValue::Int(
                self.ir.build_int_cast(value, width, "icast"),
            ),
            (Value::I16 { value }, BasicType::Int { width }) => BasicValue::Int(
                self.ir.build_int_truncate(value, width, "itrunc"),
            ),
            (Value::F32 { value }, _) => BasicValue::Float(value),
            (Value::Str { value }, _) => BasicValue::Pointer(value),
            _ => {
                let text = joined("Unimplemented argument type '", value.get_type().name(), "'");
                return Err(self.err(LLVMCompileErrorType::NotImplemented, text));
            },
        };
        assert(self.steps() =~= old(self).steps() + argument(at, value, param).steps);
        Ok(passed)
    }

    /// The constant of a number literal.
    fn compile_number<'e>(&mut self, value: &Number) -> (r: Result<Value, LLVMCompileError<'e>>)
        requires
            old(self).wf(),
        ensures
            emitted(*old(self), *final(self), number(old(self).steps().len(), *value), r),
            r matches Ok(value) ==> value_defined(final(self).steps(), value),
    {
        let ghost at = self.steps().len();
        let made = match value {
            Number::Integer { value } => Value::I16 {
                value: self.ir.const_int(16, value.truncate_to_u64(), true),
            },
            Number::Float { bits } => Value::F32 { value: self.ir.const_float(*bits) },
            Number::Complex { .. } => {
                return Err(
                    self.err(
                        LLVMCompileErrorType::NotImplemented,
                        "Imaginary numbers are not supported.".to_string(),
                    ),
                );
            },
        };
        assert(self.steps() =~= old(self).steps() + number(at, *value).steps);
        Ok(made)
    }

    /// A unary operator before `node`.
    fn compile_unary_op<'e>(&mut self, op: UnaryOperator, node: &'e ExpressionType) -> (r: Result<
        Value,
        LLVMCompileError<'e>,
    >)
        requires
            old(self).wf(),
        ensures
            emitted(*old(self), *final(self), unary(old(self).steps().len(), op, *node), r),
            r matches Ok(value) ==> value_defined(final(self).steps(), value),
    {
        let ghost at = self.steps().len();
        let negates = op == UnaryOperator::Neg;
        let number = match node {
            ExpressionType::Number { value } => value,
            _ => {
                return Err(
                    LLVMCompileError {
                        location: self.location,
                        error: LLVMCompileErrorType::NotImplemented,
                        message: Message::UnaryOperand(node),
                    },
                );
            },
        };
        let made = match number {
            Number::Integer { value } => {
                if !negates {
                    let text = joined("Unimplemented unop ", op.name(), " for integer");
                    return Err(self.err(LLVMCompileErrorType::NotImplemented, text));
                }
                let bits = value.negated().truncate_to_u64();
                Value::I16 { value: self.ir.const_int(16, bits, true) }
            },
            Number::Float { bits } => {
                if !negates {
                    let text = joined("Unimplemented unop ", op.name(), " for floating number");
                    return Err(self.err(LLVMCompileErrorType::NotImplemented, text));
                }
                Value::F32 { value: self.ir.const_float(*bits ^ 0x8000_0000_0000_0000) }
            },
            Number::Complex { .. } => {
                return Err(
                    self.err(
                        LLVMCompileErrorType::NotImplemented,
                        "Complex numbers are not implemented.".to_string(),
                    ),
                );
            },
        };
        assert(self.steps() =~= old(self).steps() + unary(at, op, *node).steps);
        Ok(made)
    }

    /// A string literal, as a global of the module.
    fn compile_string<'e>(&mut self, group: &StringGroup) -> (r: Result<
        Value,
        LLVMCompileError<'e>,
    >)
        requires
            old(self).wf(),
            !(string(old(self).scope(), old(self).steps().len(), *group).outcome is Unsupported),
        ensures
            emitted(
                *old(self),
                *final(self),
                string(old(self).scope(), old(self).steps().len(), *group),
                r,
            ),
            r matches Ok(value) ==> value_defined(final(self).steps(), value),
    {
        let ghost emission = string(self.scope(), self.steps().len(), *group);
        let text = match try_get_constant_string(group) {
            Some(text) => text,
            None => String::new(),
        };
        if self.function.is_some() {
            let value = self.ir.build_global_string_ptr(text.as_str(), ".str");
            assert(self.steps() =~= old(self).steps() + emission.steps);
            Ok(Value::Str { value })
        } else {
            Err(
                self.err(
                    LLVMCompileErrorType::NotImplemented,
                    "String expression in global scope is not implemented.".to_string(),
                ),
            )
        }
    }

    /// The variable that `name` means: a local of the function, else a global.
    pub(super) fn load_variable(&self, name: &String) -> (r: Option<Variable>)
        ensures
            r == self.scope().load(name@),
    {
        match self.variables.load(&self.function, name) {
            Some(variable) => Some(variable),
            None => self.variables.load(&None, name),
        }
    }

    /// What a variable holds.
    fn compile_identifier<'e>(&mut self, name: &String) -> (r: Result<
        Value,
        LLVMCompileError<'e>,
    >)
        requires
            old(self).wf(),
            !(identifier(old(self).scope(), old(self).steps().len(), name@).outcome is Unsupported),
        ensures
            emitted(
                *old(self),
                *final(self),
                identifier(old(self).scope(), old(self).steps().len(), name@),
                r,
            ),
            r matches Ok(value) ==> value_defined(final(self).steps(), value),
    {
        let ghost emission = identifier(self.scope(), self.steps().len(), name@);
        match self.load_variable(name) {
            Some(variable) => {
                let id = self.ir.build_load(variable.slot, name.as_str());
                let loaded = variable.slot.pointee.value(id);
                assert(self.steps() =~= old(self).steps() + emission.steps);
                Ok(Value::from_basic_value(variable.value_type, loaded))
            },
            None => Err(self.err(LLVMCompileErrorType::NameError, name.clone())),
        }
    }

    /// The symbol of the function that a call of `name` means: the function of that name, else the
    /// one that the name is mangled to for the first argument.
    pub(super) fn get_function(&self, name: &String, first_argument: ValueType) -> (r: Option<
        String,
    >)
        ensures
            optional_text(r) == self.scope().resolve(name@, first_argument),
    {
        if self.ir.has_function(name.as_str()) {
            return Some(name.clone());
        }
        match self.mangler.get_mangled_name(name, first_argument) {
            Some(symbol) => if self.ir.has_function(symbol.as_str()) {
                Some(symbol.clone())
            } else {
                None
            },
            None => None,
        }
    }

    /// Calls the function `symbol`.
    fn call_function(&mut self, symbol: &String, arguments: &Vec<BasicValue>) -> (r: Value)
        requires
            old(self).wf(),
            old(self).scope().functions.contains_key(symbol@),
            call(
                old(self).scope(),
                old(self).steps().len(),
                symbol@,
                arguments@,
            ).outcome is Done,
            forall|i: int|
                #![trigger arguments[i]]
                0 <= i < arguments.len() ==> {
                    &&& defined(old(self).steps(), arguments[i])
                    &&& arguments[i].kind() == old(self).scope().functions[symbol@].params[i]
                    &&& definite(arguments[i].kind())
                },
        ensures
            emitted(
                *old(self),
                *final(self),
                call(old(self).scope(), old(self).steps().len(), symbol@, arguments@),
                Ok(r),
            ),
            value_defined(final(self).steps(), r),
    {
        let ghost emission = call(self.scope(), self.steps().len(), symbol@, arguments@);
        let called = self.ir.build_call(symbol.as_str(), arguments, "call", true);
        assert(self.steps() =~= old(self).steps() + emission.steps);
        match (called, self.ir.get_return_type(symbol.as_str())) {
            (Some(id), Some(kind)) => {
                let value_type = match kind {
                    BasicType::Int { width } => if width == 8 {
                        ValueType::I8
                    } else {
                        ValueType::I16
                    },
                    _ => ValueType::F32,
                };
                Value::from_basic_value(value_type, kind.value(id))
            },
            _ => Value::Void,
        }
    }

    /// Generates code for `expr`.
    #[verifier::rlimit(40)]
    pub fn emit_expr<'e>(&mut self, expr: &'e Expression) -> (r: Result<
        Value,
        LLVMCompileError<'e>,
    >)
        requires
            old(self).wf(),
            typing(old(self).scope(), *expr) != Err::<Shape, Obstacle>(Obstacle::Unsupported),
        ensures
            carried_out(
                *old(self),
                *final(self),
                lower(old(self).scope(), old(self).steps().len(), *expr),
                r,
            ),
            r matches Ok(value) ==> value_defined(final(self).steps(), value),
        decreases *expr, 1nat,
    {
        let ghost at = self.steps().len();
        let ghost scope = self.scope();
        proof {
            typing_foretells_lowering(scope, at, *expr);
        }
        self.set_loc(expr.location);
        let ghost located = *self;
        let ghost here = at_once(expr.location, Outcome::Done(Value::Void));
        assert(self.steps() =~= old(self).steps() + here.steps);
        match &expr.node {
            ExpressionType::Number { value } => {
                let r = self.compile_number(value);
                proof {
                    lemma_extended(*old(self), located, *self, here, number(at, *value), r);
                }
                r
            },
            ExpressionType::String { value } => {
                let r = self.compile_string(value);
                proof {
                    lemma_extended(*old(self), located, *self, here, string(scope, at, *value), r);
                }
                r
            },
            // Keyword arguments are ignored.
            ExpressionType::Call { function, args, .. } => self.compile_expr_call(function, args),
            ExpressionType::Identifier { name } => {
                let r = self.compile_identifier(name);
                proof {
                    lemma_extended(
                        *old(self),
                        located,
                        *self,
                        here,
                        identifier(scope, at, name@),
                        r,
                    );
                }
                r
            },
            ExpressionType::Compare { vals, ops } => self.compile_comparison(vals, ops),
            ExpressionType::Binop { a, op, b } => self.compile_bin_op(a, *op, b, Ghost(*expr)),
            ExpressionType::Unop { op, a } => {
                let r = self.compile_unary_op(*op, &a.node);
                proof {
                    lemma_extended(*old(self), located, *self, here, unary(at, *op, a.node), r);
                }
                r
            },
            ExpressionType::List { elements } => self.compile_list(elements),
            ExpressionType::Tuple { elements } => self.compile_list(elements),
            ExpressionType::True => {
                let value = self.ir.const_int(1, 1, false);
                assert(self.steps() =~= old(self).steps() + extend(
                    here,
                    bool_literal(at, true),
                ).steps);
                Ok(Value::Bool { value })
            },
            ExpressionType::False => {
                let value = self.ir.const_int(1, 0, false);
                assert(self.steps() =~= old(self).steps() + extend(
                    here,
                    bool_literal(at, false),
                ).steps);
                Ok(Value::Bool { value })
            },
            ExpressionType::NoneConstant => Ok(Value::Void),
            _ => Err(
                LLVMCompileError {
                    location: self.location,
                    error: LLVMCompileErrorType::NotImplemented,
                    message: Message::Expression(expr),
                },
            ),
        }
    }

    /// Generates code for `expr`, unless it is unsupported: then nothing is done.
    pub fn try_emit_expr<'e>(&mut self, expr: &'e Expression) -> (r: Option<
        Result<Value, LLVMCompileError<'e>>,
    >)
        requires
            old(self).wf(),
        ensures
            (match r {
                Some(result) => {
                    &&& carried_out(
                        *old(self),
                        *final(self),
                        lower(old(self).scope(), old(self).steps().len(), *expr),
                        result,
                    )
                    &&& result matches Ok(value) ==> value_defined(final(self).steps(), value)
                },
                None => {
                    &&& typing(old(self).scope(), *expr) == Err::<Shape, Obstacle>(
                        Obstacle::Unsupported,
                    )
                    &&& *final(self) == *old(self)
                },
            }),
    {
        match self.check_expr(expr) {
            Err(Obstacle::Unsupported) => None,
            _ => Some(self.emit_expr(expr)),
        }
    }

    /// Generates code for a binary operator between `a` and `b`, which are parts of `whole`.
    fn compile_bin_op<'e>(
        &mut self,
        a: &'e Expression,
        op: Operator,
        b: &'e Expression,
        Ghost(whole): Ghost<Expression>,
    ) -> (r: Result<Value, LLVMCompileError<'e>>)
        requires
            old(self).wf(),
            !(lower_operator(
                old(self).scope(),
                old(self).steps().len(),
                *a,
                op,
                *b,
            ).outcome is Unsupported),
            decreases_to!(whole => *a),
            decreases_to!(whole => *b),
        ensures
            carried_out(
                *old(self),
                *final(self),
                lower_operator(old(self).scope(), old(self).steps().len(), *a, op, *b),
                r,
            ),
            r matches Ok(value) ==> value_defined(final(self).steps(), value),
        decreases whole, 0nat,
    {
        let ghost at = self.steps().len();
        let ghost scope = self.scope();
        let ghost left_lowering = lower(scope, at, *a);
        let ghost right_lowering = lower(scope, at + left_lowering.steps.len(), *b);
        proof {
            typing_foretells_lowering(scope, at, *a);
            typing_foretells_lowering(scope, at + left_lowering.steps.len(), *b);
        }
        let left = match self.emit_expr(a) {
            Ok(value) => value,
            Err(error) => {
                return Err(error);
            },
        };
        let right = match self.emit_expr(b) {
            Ok(value) => value,
            Err(error) => {
                assert(self.steps() =~= old(self).steps() + both(
                    left_lowering,
                    right_lowering,
                ).steps);
                return Err(error);
            },
        };
        let ghost operands = both(left_lowering, right_lowering);
        assert(self.steps() =~= old(self).steps() + operands.steps);
        let ghost lowered = *self;
        let r = self.operate(left, op, right);
        proof {
            lemma_extended(
                *old(self),
                lowered,
                *self,
                operands,
                binary(at + operands.steps.len(), left, op, right),
                Ok(r),
            );
        }
        Ok(r)
    }

    /// Generates code for a comparison.
    fn compile_comparison<'e>(
        &mut self,
        vals: &'e Vec<Expression>,
        ops: &Vec<Comparison>,
    ) -> (r: Result<Value, LLVMCompileError<'e>>)
        requires
            old(self).wf(),
            !(lower_comparison(
                old(self).scope(),
                old(self).steps().len(),
                old(self).location(),
                vals@,
                ops@,
            ).outcome is Unsupported),
        ensures
            carried_out(
                *old(self),
                *final(self),
                lower_comparison(
                    old(self).scope(),
                    old(self).steps().len(),
                    old(self).location(),
                    vals@,
                    ops@,
                ),
                r,
            ),
            r matches Ok(value) ==> value_defined(final(self).steps(), value),
        decreases vals@, 0nat,
    {
        if ops.len() > 1 || vals.len() > 2 {
            assert(self.steps() =~= old(self).steps() + Seq::empty());
            return Err(
                self.err(
                    LLVMCompileErrorType::NotImplemented,
                    "Chained comparison is not implemented.".to_string(),
                ),
            );
        }
        let ghost at = self.steps().len();
        let ghost scope = self.scope();
        let ghost left_lowering = lower(scope, at, vals@[0]);
        let ghost right_lowering = lower(
            scope,
            at + left_lowering.steps.len(),
            vals@[vals@.len() - 1],
        );
        proof {
            typing_foretells_lowering(scope, at, vals@[0]);
            typing_foretells_lowering(
                scope,
                at + left_lowering.steps.len(),
                vals@[vals@.len() - 1],
            );
        }
        let left = match self.emit_expr(&vals[0]) {
            Ok(value) => value,
            Err(error) => {
                return Err(error);
            },
        };
        let right = match self.emit_expr(&vals[vals.len() - 1]) {
            Ok(value) => value,
            Err(error) => {
                assert(self.steps() =~= old(self).steps() + both(
                    left_lowering,
                    right_lowering,
                ).steps);
                return Err(error);
            },
        };
        let ghost operands = both(left_lowering, right_lowering);
        assert(self.steps() =~= old(self).steps() + operands.steps);
        let ghost lowered = *self;
        let r = self.compare(left, ops[0], right);
        proof {
            lemma_extended(
                *old(self),
                lowered,
                *self,
                operands,
                comparison(at + operands.steps.len(), left, ops@[0], right),
                Ok(r),
            );
        }
        Ok(r)
    }

    /// Generates code for the elements of a list or a tuple and puts them into an array.
    fn compile_list<'e>(&mut self, elements: &'e Vec<Expression>) -> (r: Result<
        Value,
        LLVMCompileError<'e>,
    >)
        requires
            old(self).wf(),
            !(lower_list(
                old(self).scope(),
                old(self).steps().len(),
                old(self).location(),
                elements@,
            ).outcome is Unsupported),
        ensures
            carried_out(
                *old(self),
                *final(self),
                lower_list(
                    old(self).scope(),
                    old(self).steps().len(),
                    old(self).location(),
                    elements@,
                ),
                r,
            ),
            r matches Ok(value) ==> value_defined(final(self).steps(), value),
        decreases elements@, 0nat,
    {
        let ghost at = self.steps().len();
        let ghost scope = self.scope();
        let ghost location = self.location();
        let ghost all = lower_elements(scope, at, location, elements@, elements@.len());
        let mut values: Vec<BasicValue> = Vec::new();
        assert(self.steps() =~= old(self).steps() + lower_elements(
            scope,
            at,
            location,
            elements@,
            0,
        ).steps);
        for i in 0..elements.len()
            invariant
                self.wf(),
                self.scope() == scope,
                scope == old(self).scope(),
                at == old(self).steps().len(),
                location == old(self).location(),
                kept(old(self).values(), self.values()),
                self.declared() == old(self).declared(),
                self.listed() == old(self).listed(),
                self.block() == old(self).block(),
                self.location() == lower_elements(
                    scope,
                    at,
                    location,
                    elements@,
                    i as nat,
                ).location,
                self.steps() == old(self).steps() + lower_elements(
                    scope,
                    at,
                    location,
                    elements@,
                    i as nat,
                ).steps,
                lower_elements(scope, at, location, elements@, i as nat).outcome == Outcome::Done(
                    values@,
                ),
                all == lower_elements(scope, at, location, elements@, elements@.len()),
                lower_list(scope, at, location, elements@) == (match all.outcome {
                    Outcome::Done(parts) => extend(all, array(at + all.steps.len(), parts)),
                    _ => stop(all),
                }),
                !(all.outcome is Unsupported),
                values.len() == i,
                forall|j: int| 0 <= j < i ==> defined(self.steps(), #[trigger] values[j]),
        {
            let ghost before = lower_elements(scope, at, location, elements@, i as nat);
            let ghost after = lower_elements(scope, at, location, elements@, (i + 1) as nat);
            let ghost element = lower(scope, at + before.steps.len(), elements@[i as int]);
            proof {
                typing_foretells_lowering(scope, at + before.steps.len(), elements@[i as int]);
                lemma_elements_stopped(
                    scope,
                    at,
                    location,
                    elements@,
                    (i + 1) as nat,
                    elements@.len(),
                );
            }
            let value = match self.emit_expr(&elements[i]) {
                Ok(value) => value,
                Err(error) => {
                    assert(self.steps() =~= old(self).steps() + after.steps);
                    return Err(error);
                },
            };
            assert(self.steps() =~= old(self).steps() + after.steps);
            match value.to_basic_value() {
                Some(basic) => {
                    values.push(basic);
                },
                None => {},
            }
        }
        let mut numbers: Vec<IntRef> = Vec::new();
        for i in 0..values.len()
            invariant
                makes_array(values@),
                numbers.len() == i,
                forall|j: int| 0 <= j < i ==> values[j] == BasicValue::Int(#[trigger] numbers[j]),
        {
            match values[i] {
                BasicValue::Int(number) => {
                    numbers.push(number);
                },
                _ => {},
            }
        }
        let ghost lowered = *self;
        let ghost emission = array(at + all.steps.len(), values@);
        let value = self.ir.const_array(&numbers);
        proof {
            assert(numbers@ =~= values@.map_values(|value: BasicValue| value->Int_0));
            assert(self.steps() =~= lowered.steps() + emission.steps);
            lemma_extended(*old(self), lowered, *self, all, emission, Ok(Value::Array { value }));
        }
        Ok(Value::Array { value })
    }

    /// Generates code for a call.
    #[verifier::rlimit(40)]
    fn compile_expr_call<'e>(
        &mut self,
        func: &'e Expression,
        args: &'e Vec<Expression>,
    ) -> (r: Result<Value, LLVMCompileError<'e>>)
        requires
            old(self).wf(),
            !(lower_call(
                old(self).scope(),
                old(self).steps().len(),
                old(self).location(),
                *func,
                args@,
            ).outcome is Unsupported),
        ensures
            carried_out(
                *old(self),
                *final(self),
                lower_call(
                    old(self).scope(),
                    old(self).steps().len(),
                    old(self).location(),
                    *func,
                    args@,
                ),
                r,
            ),
            r matches Ok(value) ==> value_defined(final(self).steps(), value),
        decreases args@, 0nat,
    {
        let ghost at = self.steps().len();
        let ghost scope = self.scope();
        let ghost location = self.location();
        assert(self.steps() =~= old(self).steps() + Seq::empty());
        let name = match &func.node {
            ExpressionType::Identifier { name } => name,
            _ => {
                return Err(
                    self.err(
                        LLVMCompileErrorType::NotImplemented,
                        "Calling method is not implemented.".to_string(),
                    ),
                );
            },
        };
        let ghost first = if args@.len() == 0 {
            at_once(location, Outcome::Done(Value::Void))
        } else {
            lower(scope, at, args@[0])
        };
        // The type of the first argument tells which function is meant.
        let first_arg = if args.len() > 0 {
            proof {
                typing_foretells_lowering(scope, at, args@[0]);
            }
            match self.emit_expr(&args[0]) {
                Ok(value) => value,
                Err(error) => {
                    return Err(error);
                },
            }
        } else {
            Value::Void
        };
        let symbol = match self.get_function(name, first_arg.get_type()) {
            Some(symbol) => symbol,
            None => {
                assert(self.steps() =~= old(self).steps() + (first.steps + Seq::empty()));
                return Err(self.err(LLVMCompileErrorType::NameError, name.clone()));
            },
        };
        assert(scope.functions[symbol@].known);
        let params = self.ir.get_params(symbol.as_str());
        let n: usize = if args.len() < params.len() {
            args.len()
        } else {
            params.len()
        };
        let ghost all = lower_arguments(scope, at, first, first_arg, args@, params@, n as nat);
        let mut arguments: Vec<BasicValue> = Vec::new();
        assert(self.steps() =~= old(self).steps() + lower_arguments(
            scope,
            at,
            first,
            first_arg,
            args@,
            params@,
            0,
        ).steps);
        for i in 0..n
            invariant
                self.wf(),
                self.scope() == scope,
                scope == old(self).scope(),
                at == old(self).steps().len(),
                location == old(self).location(),
                kept(old(self).values(), self.values()),
                self.declared() == old(self).declared(),
                self.listed() == old(self).listed(),
                self.block() == old(self).block(),
                n == shorter(args@.len(), params@.len()),
                self.location() == lower_arguments(
                    scope,
                    at,
                    first,
                    first_arg,
                    args@,
                    params@,
                    i as nat,
                ).location,
                self.steps() == old(self).steps() + lower_arguments(
                    scope,
                    at,
                    first,
                    first_arg,
                    args@,
                    params@,
                    i as nat,
                ).steps,
                lower_arguments(
                    scope,
                    at,
                    first,
                    first_arg,
                    args@,
                    params@,
                    i as nat,
                ).outcome == Outcome::Done(arguments@),
                all == lower_arguments(scope, at, first, first_arg, args@, params@, n as nat),
                lower_call(scope, at, location, *func, args@) == (match all.outcome {
                    Outcome::Done(passed) => extend(
                        all,
                        call(scope, at + all.steps.len(), symbol@, passed),
                    ),
                    _ => stop(all),
                }),
                !(all.outcome is Unsupported),
                value_defined(self.steps(), first_arg),
                forall|j: int|
                    0 <= j < params.len() ==> (#[trigger] params[j] matches BasicType::Int { width }
                        ==> 1 <= width <= max_width()),
                arguments.len() == i,
                forall|j: int|
                    #![trigger arguments[j]]
                    0 <= j < i ==> {
                        &&& defined(self.steps(), arguments[j])
                        &&& arguments[j].kind() == params[j]
                        &&& definite(arguments[j].kind())
                    },
        {
            let ghost before = lower_arguments(
                scope,
                at,
                first,
                first_arg,
                args@,
                params@,
                i as nat,
            );
            let ghost after = lower_arguments(
                scope,
                at,
                first,
                first_arg,
                args@,
                params@,
                (i + 1) as nat,
            );
            proof {
                typing_foretells_lowering(scope, at + before.steps.len(), args@[i as int]);
                lemma_arguments_stopped(
                    scope,
                    at,
                    first,
                    first_arg,
                    args@,
                    params@,
                    (i + 1) as nat,
                    n as nat,
                );
            }
            // The first argument has its code already.
            let value = if i == 0 {
                first_arg
            } else {
                match self.emit_expr(&args[i]) {
                    Ok(value) => value,
                    Err(error) => {
                        assert(self.steps() =~= old(self).steps() + after.steps);
                        return Err(error);
                    },
                }
            };
            let ghost lowered = if i == 0 {
                at_once(before.location, Outcome::Done(value))
            } else {
                lower(scope, at + before.steps.len(), args@[i as int])
            };
            assert(self.steps() =~= old(self).steps() + (before.steps + lowered.steps));
            match self.convert_argument(value, params[i]) {
                Ok(passed) => {
                    assert(self.steps() =~= old(self).steps() + after.steps);
                    arguments.push(passed);
                },
                Err(error) => {
                    assert(self.steps() =~= old(self).steps() + after.steps);
                    return Err(error);
                },
            }
        }
        let ghost lowered = *self;
        let ghost emission = call(scope, at + all.steps.len(), symbol@, arguments@);
        let r = self.call_function(&symbol, &arguments);
        proof {
            lemma_extended(*old(self), lowered, *self, all, emission, Ok(r));
        }
        Ok(r)
    }
}

/// Elements that stopped at one of them stay stopped there.
proof fn lemma_elements_stopped(
    scope: Scope,
    at: nat,
    location: Location,
    elements: Seq<Expression>,
    n: nat,
    m: nat,
)
    requires
        n <= m <= elements.len(),
    ensures
        !(lower_elements(scope, at, location, elements, n).outcome is Done) ==> lower_elements(
            scope,
            at,
            location,
            elements,
            m,
        ) == lower_elements(scope, at, location, elements, n),
    decreases m,
{
    if n < m {
        lemma_elements_stopped(scope, at, location, elements, n, (m - 1) as nat);
    }
}

/// Arguments that stopped at one of them stay stopped there.
proof fn lemma_arguments_stopped(
    scope: Scope,
    at: nat,
    first: Lowering<Value>,
    value: Value,
    args: Seq<Expression>,
    params: Seq<BasicType>,
    n: nat,
    m: nat,
)
    requires
        n <= m <= args.len(),
    ensures
        !(lower_arguments(scope, at, first, value, args, params, n).outcome is Done)
            ==> lower_arguments(scope, at, first, value, args, params, m) == lower_arguments(
            scope,
            at,
            first,
            value,
            args,
            params,
            n,
        ),
    decreases m,
{
    if n < m {
        lemma_arguments_stopped(scope, at, first, value, args, params, n, (m - 1) as nat);
    }
}

/// Carrying out a lowering and then the steps of an emission carries out the one with the other.
proof fn lemma_extended<'ctx, 'e, S, T>(
    first: CodeGen<'ctx>,
    middle: CodeGen<'ctx>,
    last: CodeGen<'ctx>,
    lowering: Lowering<S>,
    emission: Emission<T>,
    result: Result<T, LLVMCompileError<'e>>,
)
    requires
        middle.scope() == first.scope(),
        middle.declared() == first.declared(),
        middle.listed() == first.listed(),
        middle.block() == first.block(),
        middle.location() == lowering.location,
        middle.steps() == first.steps() + lowering.steps,
        kept(first.values(), middle.values()),
        emitted(middle, last, emission, result),
    ensures
        carried_out(first, last, extend(lowering, emission), result),
{
    assert(last.steps() =~= first.steps() + extend(lowering, emission).steps);
}

/// Three texts, one after the other.
fn joined(first: &str, second: &str, third: &str) -> (r: String)
    ensures
        r@ == first@ + second@ + third@,
{
    let mut text = String::new();
    text.append(first);
    text.append(second);
    text.append(third);
    assert(text@ =~= first@ + second@ + third@);
    text
}

} // verus!
