//! What can be told of expressions beforehand.
use crate::ast::{
    try_get_constant_string, Comparison, Expression, ExpressionType, Number, Operator,
    UnaryOperator,
};
use crate::codegen::CodeGen;
use crate::lowering::{float_operator, int_operator, int_predicate, shorter};
use crate::scope::Scope;
use crate::typing::{
    argument_typing, arguments_typing, binary_typing, call_typing, compare_typing,
    comparison_typing, element_typing, float_shape, int_shape, is_float, is_int, list_typing,
    number_typing, plain, precision, result_typing, shapes_make_array, typing, unary_typing,
    Obstacle,
};
use crate::value::{BasicType, Precision, Shape, Target, ValueType};
use vstd::prelude::*;

verus! {

impl Operator {
    /// Whether two integers can be combined by this operator to an integer.
    fn combines_ints(self) -> (r: bool)
        ensures
            r == (int_operator(self) is Some),
    {
        match self {
            Operator::Add | Operator::Sub | Operator::Mult | Operator::FloorDiv | Operator::Mod => {
                true
            },
            _ => false,
        }
    }

    /// Whether two floating point numbers can be combined by this operator.
    fn combines_floats(self) -> (r: bool)
        ensures
            r == (float_operator(self) is Some),
    {
        match self {
            Operator::Add | Operator::Sub | Operator::Mult | Operator::Div | Operator::Mod => true,
            _ => false,
        }
    }
}

impl Comparison {
    /// Whether numbers can be compared by this operator.
    fn compares_numbers(self) -> (r: bool)
        ensures
            r == (int_predicate(self) is Some),
    {
        match self {
            Comparison::In | Comparison::NotIn | Comparison::Is | Comparison::IsNot => false,
            _ => true,
        }
    }
}

impl Shape {
    /// The shape of something that no LLVM value stands for.
    fn plain(value_type: ValueType) -> (r: Shape)
        ensures
            r == plain(value_type),
    {
        Shape { value_type, kind: None, constant: false }
    }

    /// The shape of an integer of type `value_type`.
    fn of_int(value_type: ValueType, width: u32, constant: bool) -> (r: Shape)
        ensures
            r == int_shape(value_type, width, constant),
    {
        Shape { value_type, kind: Some(BasicType::Int { width }), constant }
    }

    /// The shape of a floating point number.
    fn of_float(precision: Precision, constant: bool) -> (r: Shape)
        ensures
            r == float_shape(precision, constant),
    {
        Shape { value_type: ValueType::F32, kind: Some(BasicType::Float { precision }), constant }
    }

    /// The precision of a floating point number of this shape, or the one that an integer is
    /// converted to.
    fn precision(self) -> (r: Precision)
        ensures
            r == precision(self),
    {
        match self.kind {
            Some(BasicType::Float { precision }) => precision,
            _ => Precision::Single,
        }
    }

    /// Whether a value of this shape and one of the shape `other` have the same LLVM type.
    fn same_kind(self, other: Shape) -> (r: bool)
        ensures
            r == (self.kind == other.kind),
    {
        match (self.kind, other.kind) {
            (Some(one), Some(other)) => one == other,
            (None, None) => true,
            _ => false,
        }
    }

    /// Whether a value of this shape is an integer that operators take.
    fn is_int(self) -> (r: bool)
        ensures
            r == is_int(self),
    {
        self.value_type == ValueType::I8 || self.value_type == ValueType::I16
    }

    /// Whether a value of this shape is a floating point number.
    fn is_float(self) -> (r: bool)
        ensures
            r == is_float(self),
    {
        self.value_type == ValueType::F32
    }

    /// The shape of a number literal.
    fn of_number(value: &Number) -> (r: Result<Shape, Obstacle>)
        ensures
            r == number_typing(*value),
    {
        match value {
            Number::Integer { .. } => Ok(Shape::of_int(ValueType::I16, 16, true)),
            Number::Float { .. } => Ok(Shape::of_float(Precision::Single, true)),
            Number::Complex { .. } => Err(Obstacle::Refused),
        }
    }

    /// The shape of a unary operator before `node`.
    fn of_unary_op(op: UnaryOperator, node: &ExpressionType) -> (r: Result<Shape, Obstacle>)
        ensures
            r == unary_typing(op, *node),
    {
        match node {
            ExpressionType::Number { value } => if op == UnaryOperator::Neg {
                Shape::of_number(value)
            } else {
                Err(Obstacle::Refused)
            },
            _ => Err(Obstacle::Refused),
        }
    }

    /// The shape of what an operator makes of two operands.
    fn of_bin_op(left: Shape, op: Operator, right: Shape) -> (r: Result<Shape, Obstacle>)
        ensures
            r == binary_typing(left, op, right),
    {
        let constant = left.constant && right.constant;
        if left.is_int() && right.is_int() && op != Operator::Div {
            if op.combines_ints() && left.same_kind(right) {
                Ok(Shape { value_type: ValueType::I16, kind: left.kind, constant })
            } else {
                Err(Obstacle::Unsupported)
            }
        } else if left.is_int() && right.is_int() {
            Ok(Shape::of_float(Precision::Single, constant))
        } else if (left.is_int() || left.is_float()) && (right.is_int() || right.is_float())
            && op.combines_floats() && left.precision() == right.precision() {
            Ok(Shape::of_float(left.precision(), constant))
        } else {
            Err(Obstacle::Unsupported)
        }
    }

    /// The shape of a comparison of two operands.
    fn of_comparison(left: Shape, op: Comparison, right: Shape) -> (r: Result<Shape, Obstacle>)
        ensures
            r == comparison_typing(left, op, right),
    {
        let ints = left.is_int() && right.is_int();
        let floats = left.is_float() && right.is_float();
        if (ints || floats) && left.same_kind(right) && op.compares_numbers() {
            Ok(Shape::of_int(ValueType::Bool, 1, left.constant && right.constant))
        } else {
            Err(Obstacle::Unsupported)
        }
    }

    /// Whether a value of this shape can be passed for a parameter of type `param`.
    fn check_argument(self, param: BasicType) -> (r: Result<(), Obstacle>)
        ensures
            r == argument_typing(self, param),
    {
        let fits = match self.value_type {
            ValueType::Void | ValueType::Array => {
                return Err(Obstacle::Refused);
            },
            ValueType::Bool | ValueType::I16 => match (self.kind, param) {
                (Some(BasicType::Int { width: held }), BasicType::Int { width }) => width <= held,
                _ => false,
            },
            ValueType::I8 => match param {
                BasicType::Int { .. } => true,
                _ => false,
            },
            ValueType::F32 | ValueType::Str => match self.kind {
                Some(kind) => kind == param && param.is_definite(),
                None => false,
            },
        };
        if fits {
            Ok(())
        } else {
            Err(Obstacle::Unsupported)
        }
    }

    /// The shape of what a call gives, of a function whose result has type `kind`.
    fn of_result(kind: Option<BasicType>) -> (r: Result<Shape, Obstacle>)
        ensures
            r == result_typing(kind),
    {
        match kind {
            None => Ok(Shape::plain(ValueType::Void)),
            Some(BasicType::Float { precision }) => Ok(Shape::of_float(precision, false)),
            Some(BasicType::Int { width }) => if width == 8 {
                Ok(Shape::of_int(ValueType::I8, width, false))
            } else if width == 16 {
                Ok(Shape::of_int(ValueType::I16, width, false))
            } else {
                Err(Obstacle::Unsupported)
            },
            _ => Err(Obstacle::Unsupported),
        }
    }
}

impl<'ctx> CodeGen<'ctx> {
    /// The shape of the value that `emit_expr` would give for `expr`, or why it would give none.
    /// An expression that is unsupported must not be handed to `emit_expr`.
    pub fn check_expr(&self, expr: &Expression) -> (r: Result<Shape, Obstacle>)
        ensures
            r == typing(self.scope(), *expr),
        decreases *expr, 1nat,
    {
        match &expr.node {
            ExpressionType::Number { value } => Shape::of_number(value),
            ExpressionType::String { value } => {
                if try_get_constant_string(value).is_none() {
                    Err(Obstacle::Unsupported)
                } else if self.function.is_none() {
                    Err(Obstacle::Refused)
                } else if self.ir.is_positioned() {
                    let kind = BasicType::Pointer { target: Target::Int { width: 8 } };
                    Ok(kind.shape(ValueType::Str))
                } else {
                    Err(Obstacle::Unsupported)
                }
            },
            ExpressionType::Identifier { name } => match self.load_variable(name) {
                Some(variable) => {
                    let pointee = variable.slot.pointee;
                    if self.ir.is_positioned() && pointee.stands_for(variable.value_type) {
                        Ok(pointee.shape(variable.value_type))
                    } else {
                        Err(Obstacle::Unsupported)
                    }
                },
                None => Err(Obstacle::Refused),
            },
            ExpressionType::Unop { op, a } => Shape::of_unary_op(*op, &a.node),
            ExpressionType::True | ExpressionType::False => Ok(
                Shape::of_int(ValueType::Bool, 1, true),
            ),
            ExpressionType::NoneConstant => Ok(Shape::plain(ValueType::Void)),
            ExpressionType::Binop { a, op, b } => {
                let left = match self.check_expr(a) {
                    Ok(shape) => shape,
                    Err(obstacle) => {
                        return Err(obstacle);
                    },
                };
                let right = match self.check_expr(b) {
                    Ok(shape) => shape,
                    Err(obstacle) => {
                        return Err(obstacle);
                    },
                };
                Shape::of_bin_op(left, *op, right)
            },
            ExpressionType::Compare { vals, ops } => self.check_comparison(vals, ops),
            ExpressionType::BoolOp { .. } => Err(Obstacle::Unsupported),
            ExpressionType::List { elements } => self.check_list(elements),
            ExpressionType::Tuple { elements } => self.check_list(elements),
            ExpressionType::Call { function, args, keywords } => self.check_call(function, args),
            ExpressionType::Other { .. } => Err(Obstacle::Refused),
        }
    }

    /// The shape of a comparison.
    fn check_comparison(&self, vals: &Vec<Expression>, ops: &Vec<Comparison>) -> (r: Result<
        Shape,
        Obstacle,
    >)
        ensures
            r == compare_typing(self.scope(), vals@, ops@),
        decreases vals@, 0nat,
    {
        if ops.len() > 1 || vals.len() > 2 {
            return Err(Obstacle::Refused);
        }
        if vals.len() == 0 {
            return Err(Obstacle::Unsupported);
        }
        let left = match self.check_expr(&vals[0]) {
            Ok(shape) => shape,
            Err(obstacle) => {
                return Err(obstacle);
            },
        };
        let right = match self.check_expr(&vals[vals.len() - 1]) {
            Ok(shape) => shape,
            Err(obstacle) => {
                return Err(obstacle);
            },
        };
        if ops.len() == 0 {
            Err(Obstacle::Unsupported)
        } else {
            Shape::of_comparison(left, ops[0], right)
        }
    }

    /// The shape of a list or a tuple.
    fn check_list(&self, elements: &Vec<Expression>) -> (r: Result<Shape, Obstacle>)
        ensures
            r == list_typing(self.scope(), elements@),
        decreases elements@, 0nat,
    {
        let mut shapes: Vec<Shape> = Vec::new();
        for i in 0..elements.len()
            invariant
                element_typing(self.scope(), elements@, i as nat) == Ok::<Seq<Shape>, Obstacle>(
                    shapes@,
                ),
        {
            proof {
                lemma_elements_refused(
                    self.scope(),
                    elements@,
                    (i + 1) as nat,
                    elements@.len(),
                );
            }
            match self.check_expr(&elements[i]) {
                Ok(shape) => {
                    if shape.value_type == ValueType::Void {
                        return Err(Obstacle::Unsupported);
                    }
                    shapes.push(shape);
                },
                Err(obstacle) => {
                    return Err(obstacle);
                },
            }
        }
        if make_array(&shapes) {
            Ok(BasicType::Array { sized: true }.shape(ValueType::Array))
        } else {
            Err(Obstacle::Unsupported)
        }
    }

    /// The shape of a call.
    fn check_call(&self, func: &Expression, args: &Vec<Expression>) -> (r: Result<Shape, Obstacle>)
        ensures
            r == call_typing(self.scope(), *func, args@),
        decreases args@, 0nat,
    {
        let name = match &func.node {
            ExpressionType::Identifier { name } => name,
            _ => {
                return Err(Obstacle::Refused);
            },
        };
        let first = if args.len() > 0 {
            match self.check_expr(&args[0]) {
                Ok(shape) => shape,
                Err(obstacle) => {
                    return Err(obstacle);
                },
            }
        } else {
            Shape::plain(ValueType::Void)
        };
        let symbol = match self.get_function(name, first.value_type) {
            Some(symbol) => symbol,
            None => {
                return Err(Obstacle::Refused);
            },
        };
        if !self.ir.knows_params(symbol.as_str()) {
            return Err(Obstacle::Unsupported);
        }
        let params = self.ir.get_params(symbol.as_str());
        let n: usize = if args.len() < params.len() {
            args.len()
        } else {
            params.len()
        };
        for i in 0..n
            invariant
                n == shorter(args@.len(), params@.len()),
                arguments_typing(self.scope(), first, args@, params@, i as nat) == Ok::<
                    (),
                    Obstacle,
                >(()),
                call_typing(self.scope(), *func, args@) == (match arguments_typing(
                    self.scope(),
                    first,
                    args@,
                    params@,
                    n as nat,
                ) {
                    Ok(_) => if args@.len() < params@.len() {
                        Err(Obstacle::Unsupported)
                    } else {
                        result_typing(self.scope().functions[symbol@].result)
                    },
                    Err(obstacle) => Err(obstacle),
                }),
        {
            proof {
                lemma_arguments_refused(
                    self.scope(),
                    first,
                    args@,
                    params@,
                    (i + 1) as nat,
                    n as nat,
                );
            }
            let shape = if i == 0 {
                first
            } else {
                match self.check_expr(&args[i]) {
                    Ok(shape) => shape,
                    Err(obstacle) => {
                        return Err(obstacle);
                    },
                }
            };
            match shape.check_argument(params[i]) {
                Ok(_) => {},
                Err(obstacle) => {
                    return Err(obstacle);
                },
            }
        }
        if args.len() < params.len() {
            Err(Obstacle::Unsupported)
        } else {
            Shape::of_result(self.ir.get_return_type(symbol.as_str()))
        }
    }
}

/// Whether values of these shapes can be the elements of a constant array.
fn make_array(shapes: &Vec<Shape>) -> (r: bool)
    ensures
        r == shapes_make_array(shapes@),
{
    if shapes.len() == 0 || shapes.len() > u32::MAX as usize {
        return false;
    }
    for i in 0..shapes.len()
        invariant
            0 < shapes.len() <= u32::MAX,
            forall|j: int|
                #![trigger shapes[j]]
                0 <= j < i ==> {
                    &&& is_int(shapes[j]) || shapes[j].value_type is Bool
                    &&& shapes[j].constant
                    &&& shapes[j].kind == shapes[0].kind
                },
    {
        let shape = shapes[i];
        let integer = shape.is_int() || shape.value_type == ValueType::Bool;
        if !integer || !shape.constant || !shape.same_kind(shapes[0]) {
            return false;
        }
    }
    true
}

/// What keeps one of the elements from having a shape keeps the list from having one.
proof fn lemma_elements_refused(scope: Scope, elements: Seq<Expression>, n: nat, m: nat)
    requires
        n <= m <= elements.len(),
    ensures
        element_typing(scope, elements, n) is Err ==> element_typing(scope, elements, m)
            == element_typing(scope, elements, n),
    decreases m,
{
    if n < m {
        lemma_elements_refused(scope, elements, n, (m - 1) as nat);
    }
}

/// What keeps one of the arguments from being passed keeps all of them from it.
proof fn lemma_arguments_refused(
    scope: Scope,
    first: Shape,
    args: Seq<Expression>,
    params: Seq<BasicType>,
    n: nat,
    m: nat,
)
    requires
        n <= m <= args.len(),
    ensures
        arguments_typing(scope, first, args, params, n) is Err ==> arguments_typing(
            scope,
            first,
            args,
            params,
            m,
        ) == arguments_typing(scope, first, args, params, n),
    decreases m,
{
    if n < m {
        lemma_arguments_refused(scope, first, args, params, n, (m - 1) as nat);
    }
}

} // verus!
