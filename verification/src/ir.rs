//! The LLVM code under construction.
//!
//! [`Ir`] builds code through inkwell and keeps each value that a step gives, so that later steps
//! can name it by the number of the step. The steps taken are what contracts speak of.
use crate::type_text::{
    basic_type, ends_with_star, is_unnamed, listed_with, max_width, parameters_known, pointee_text,
    read_function, read_pointee, read_target, read_type, result_type_of, target_type, texts,
};
use crate::value::{
    definite, value_of, ArrayRef, BasicType, BasicValue, FloatRef, IntRef, PointerRef, Precision,
    Target, Value,
};
use either::Either;
use inkwell::builder::Builder;
use inkwell::module::Module;
use inkwell::values::{
    AnyValue, AnyValueEnum, BasicMetadataValueEnum, InstructionOpcode, PointerValue,
};
use vstd::prelude::*;

verus! {

/// inkwell's `Module`, a collection of functions.
#[verifier::external_type_specification]
#[verifier::external_body]
pub struct ExModule<'ctx>(inkwell::module::Module<'ctx>);

/// inkwell's `Builder`, which adds instructions to a block.
#[verifier::external_type_specification]
#[verifier::external_body]
pub struct ExBuilder<'ctx>(inkwell::builder::Builder<'ctx>);

/// inkwell's `AnyValueEnum`, a value of any type or an instruction that has none.
#[verifier::external_type_specification]
#[verifier::external_body]
pub struct ExAnyValueEnum<'ctx>(inkwell::values::AnyValueEnum<'ctx>);

/// inkwell's `PointerValue`.
#[verifier::external_type_specification]
#[verifier::external_body]
pub struct ExPointerValue<'ctx>(inkwell::values::PointerValue<'ctx>);

/// A function as LLVM prints its type, and the types of its parameters.
pub struct Declared {
    pub text: Seq<char>,
    pub params: Seq<Seq<char>>,
}

/// The types of a function's parameters and of its result; a function without a result has none.
pub struct Signature {
    /// Whether values are handled of the types of all parameters.
    pub known: bool,
    pub params: Seq<BasicType>,
    pub result: Option<BasicType>,
}

/// What LLVM prints as the type of `pointer`.
pub uninterp spec fn pointer_text(pointer: PointerValue<'_>) -> Seq<char>;

/// The functions of `module`, by the names that `Module::get_function` finds them under. They stay
/// what they are unless someone renames one of them through its handle.
pub uninterp spec fn functions(module: Module<'_>) -> Map<Seq<char>, Declared>;

/// Whether `builder` stands in a block of a function. It stays so unless it is moved, or someone
/// takes the block out of its function through its handle.
pub uninterp spec fn in_function(builder: Builder<'_>) -> bool;

/// Whether `pointer` is of the LLVM context that `module` is of.
pub uninterp spec fn of_context(module: Module<'_>, pointer: PointerValue<'_>) -> bool;

/// The signature that the texts of a function tell, with pointers told apart by the types that are
/// `listed`.
pub open spec fn signature_of(listed: Seq<Seq<char>>, declared: Declared) -> Signature {
    Signature {
        known: parameters_known(declared.text),
        params: declared.params.map_values(|text: Seq<char>| basic_type(listed, text)),
        result: result_type_of(listed, declared.text),
    }
}

/// The signatures of the functions that are `declared`.
pub open spec fn signatures(
    listed: Seq<Seq<char>>,
    declared: Map<Seq<char>, Declared>,
) -> Map<Seq<char>, Signature> {
    declared.map_values(|function: Declared| signature_of(listed, function))
}

/// The type of a function of `module`, as `FunctionType::print_to_string` prints it, or nothing if
/// `Module::get_function` gives no function of that name.
#[verifier::external_body]
fn function_type(module: &Module<'_>, name: &str) -> (r: Option<String>)
    ensures
        (match r {
            Some(text) => {
                &&& functions(*module).contains_key(name@)
                &&& functions(*module)[name@].text == text@
            },
            None => !functions(*module).contains_key(name@),
        }),
{
    let function = module.get_function(name);
    function.map(|function| function.get_type().print_to_string().to_string())
}

/// The types of the parameters of a function of `module`, in order, as
/// `FunctionValue::get_params` gives the parameters and `BasicTypeEnum::print_to_string` prints
/// their types. inkwell panics where a parameter has a type that it has no values of.
#[verifier::external_body]
fn get_params(module: &Module<'_>, name: &str) -> (r: Vec<String>)
    requires
        functions(*module).contains_key(name@),
        parameters_known(functions(*module)[name@].text),
    ensures
        r.len() == functions(*module)[name@].params.len(),
        forall|i: int|
            0 <= i < r.len() ==> (#[trigger] r[i])@ == functions(*module)[name@].params[i],
{
    let params = module.get_function(name).unwrap().get_params();
    params.iter().map(|param| param.get_type().print_to_string().to_string()).collect()
}

/// Whether the builder stands in a block of a function: `Builder::get_insert_block` gives a block
/// and `BasicBlock::get_parent` a function.
#[verifier::external_body]
fn has_insert_block(builder: &Builder<'_>) -> (r: bool)
    ensures
        r == in_function(*builder),
{
    builder.get_insert_block().and_then(|block| block.get_parent()).is_some()
}

/// A builder of the context of `module`: `Module::get_context` and `ContextRef::create_builder`. It
/// stands in no block yet.
#[verifier::external_body]
fn create_builder<'ctx>(module: &Module<'ctx>) -> (r: Builder<'ctx>)
    ensures
        !in_function(r),
{
    module.get_context().create_builder()
}

/// Whether `pointer` is of the context that `module` is of, by `Module::get_context` and
/// `PointerType::get_context`.
#[verifier::external_body]
fn has_context(module: &Module<'_>, pointer: &PointerValue<'_>) -> (r: bool)
    ensures
        r == of_context(*module, *pointer),
{
    module.get_context() == pointer.get_type().get_context()
}

/// The type of `pointer`, as `PointerType::print_to_string` prints it.
#[verifier::external_body]
fn pointer_type(pointer: &PointerValue<'_>) -> (r: String)
    ensures
        r@ == pointer_text(*pointer),
{
    pointer.get_type().print_to_string().to_string()
}

/// What comes of `text` before the first NUL, which is where LLVM takes it to end.
pub open spec fn before_nul(text: Seq<char>) -> Seq<char>
    decreases text.len(),
{
    if text.len() == 0 || text[0] == '\0' {
        Seq::empty()
    } else {
        seq![text[0]] + before_nul(text.skip(1))
    }
}

/// Whether values of type `kind` can be loaded: LLVM knows their size, and inkwell has them.
pub open spec fn loadable(kind: BasicType) -> bool {
    match kind {
        BasicType::Struct | BasicType::Unknown => false,
        BasicType::Array { sized } => sized,
        _ => true,
    }
}

/// How two integers are compared.
#[derive(Clone, Copy, Debug, PartialEq, Eq, Structural)]
pub enum IntPredicate {
    EQ,
    NE,
    SGT,
    SLT,
    SGE,
    SLE,
}

/// How two floating point numbers are compared; each of these is false if one is not a number.
#[derive(Clone, Copy, Debug, PartialEq, Eq, Structural)]
pub enum FloatPredicate {
    OEQ,
    ONE,
    OGT,
    OLT,
    OGE,
    OLE,
}

/// How two integers are combined.
#[derive(Clone, Copy, Debug, PartialEq, Eq, Structural)]
pub enum IntOperator {
    Add,
    Sub,
    Mul,
    SignedDiv,
    SignedRem,
}

/// How two floating point numbers are combined.
#[derive(Clone, Copy, Debug, PartialEq, Eq, Structural)]
pub enum FloatOperator {
    Add,
    Sub,
    Mul,
    Div,
    Rem,
}

/// What one step of the construction asks of LLVM. Where LLVM takes a name for the result, `name`
/// is the one asked for, of which LLVM takes what comes before a NUL and which it may number.
#[allow(inconsistent_fields)]
pub enum Operation {
    /// The constant of `width` bits that `value` truncates to.
    ConstInt { width: u32, value: u64, sign_extend: bool },
    /// The single precision constant nearest to the double with these bits.
    ConstFloat { bits: u64 },
    /// The constant array of these constants.
    ConstArray { elements: Seq<IntRef> },
    /// The single precision constant nearest to a constant signed integer.
    ConstSignedToFloat { value: IntRef },
    /// Nothing: a pointer from elsewhere that code may load from.
    Slot { pointee: BasicType, target: Target },
    /// A pointer to the first character of a new global string, up to a NUL.
    GlobalString { text: Seq<char>, name: Seq<char> },
    /// What a pointer points to.
    Load { pointer: PointerRef, name: Seq<char> },
    /// A signed integer in single precision.
    SignedToFloat { value: IntRef, name: Seq<char> },
    /// An integer cut down to `width` bits.
    IntTruncate { value: IntRef, width: u32, name: Seq<char> },
    /// A signed integer cut down or extended to `width` bits.
    IntCast { value: IntRef, width: u32, name: Seq<char> },
    IntMath { operator: IntOperator, lhs: IntRef, rhs: IntRef, name: Seq<char> },
    FloatMath { operator: FloatOperator, lhs: FloatRef, rhs: FloatRef, name: Seq<char> },
    IntCompare { predicate: IntPredicate, lhs: IntRef, rhs: IntRef, name: Seq<char> },
    FloatCompare { predicate: FloatPredicate, lhs: FloatRef, rhs: FloatRef, name: Seq<char> },
    /// A call, marked as a tail call or not.
    Call { function: Seq<char>, arguments: Seq<BasicValue>, name: Seq<char>, tail: bool },
}

/// One step of the construction and the value that came of it, if any.
pub struct Step {
    pub operation: Operation,
    pub result: Option<BasicValue>,
}

/// A place in memory that code may load from, and the type of what it holds.
#[derive(Clone, Copy, Debug, PartialEq, Eq, Structural)]
pub struct Slot {
    pub pointer: PointerRef,
    pub pointee: BasicType,
}

/// Whether `value` came of one of `steps`.
pub open spec fn defined(steps: Seq<Step>, value: BasicValue) -> bool {
    &&& value.spec_id() < steps.len()
    &&& steps[value.spec_id() as int].result == Some(value)
}

/// Whether the LLVM value that stands for `value` came of one of `steps`.
pub open spec fn value_defined(steps: Seq<Step>, value: Value) -> bool {
    match value.basic() {
        Some(basic) => defined(steps, basic),
        None => true,
    }
}

/// Whether `slot` was taken up by one of `steps`.
pub open spec fn slot_defined(steps: Seq<Step>, slot: Slot) -> bool {
    &&& defined(steps, BasicValue::Pointer(slot.pointer))
    &&& steps[slot.pointer.id as int].operation == (Operation::Slot {
        pointee: slot.pointee,
        target: slot.pointer.target,
    })
}

/// What comes of an operation on two integers at step `id`.
pub open spec fn combined(id: usize, lhs: IntRef, rhs: IntRef) -> IntRef {
    IntRef { id, width: lhs.width, constant: lhs.constant && rhs.constant }
}

/// What comes of an operation on two floating point numbers at step `id`.
pub open spec fn float_combined(id: usize, lhs: FloatRef, rhs: FloatRef) -> FloatRef {
    FloatRef { id, precision: lhs.precision, constant: lhs.constant && rhs.constant }
}

/// What comes of a comparison at step `id`.
pub open spec fn compared(id: usize, constant: bool) -> IntRef {
    IntRef { id, width: 1, constant }
}

/// The LLVM code under construction.
pub struct Ir<'ctx> {
    builder: Builder<'ctx>,
    module: Module<'ctx>,
    types: Vec<String>,
    values: Vec<AnyValueEnum<'ctx>>,
    steps: Ghost<Seq<Step>>,
    block: Ghost<Option<(Seq<char>, Seq<char>)>>,
}

/// Whether `ir` takes up `pointer`: it is of the same context, and its type tells what it points
/// to.
pub open spec fn takes_up<'ctx>(ir: Ir<'ctx>, pointer: PointerValue<'ctx>) -> bool {
    &&& ir.shares_context(pointer)
    &&& pointer_text(pointer).len() > 0
    &&& pointer_text(pointer).last() == '*'
}

/// The place that `pointer` points to, taken up by step `id`.
pub open spec fn slot_of(id: usize, listed: Seq<Seq<char>>, pointer: PointerValue<'_>) -> Slot {
    Slot {
        pointer: PointerRef { id, target: target_type(listed, pointer_text(pointer)) },
        pointee: basic_type(listed, pointee_text(pointer_text(pointer))),
    }
}

/// The step that takes up a place.
pub open spec fn slot_step(slot: Slot) -> Step {
    Step {
        operation: Operation::Slot { pointee: slot.pointee, target: slot.pointer.target },
        result: Some(BasicValue::Pointer(slot.pointer)),
    }
}

/// Whether `after` still has what `before` has, at the same places.
pub open spec fn kept<T>(before: Seq<T>, after: Seq<T>) -> bool {
    &&& before.len() <= after.len()
    &&& forall|i: int| 0 <= i < before.len() ==> #[trigger] after[i] == before[i]
}

/// Whether `after` has the functions of `before`, tells types as it does, and goes on at the same
/// place.
pub open spec fn settled<'ctx>(before: Ir<'ctx>, after: Ir<'ctx>) -> bool {
    &&& after.declared() == before.declared()
    &&& after.listed() == before.listed()
    &&& after.block() == before.block()
    &&& after.positioned() == before.positioned()
}

/// Whether `after` is `before` with one more step, whose value is kept behind the others.
pub open spec fn grown<'ctx>(
    before: Ir<'ctx>,
    after: Ir<'ctx>,
    operation: Operation,
    result: Option<BasicValue>,
) -> bool {
    &&& after.steps() == before.steps().push(Step { operation, result })
    &&& after.values().len() == before.values().len() + 1
    &&& kept(before.values(), after.values())
    &&& settled(before, after)
    &&& after.steps().len() <= usize::MAX
}

impl<'ctx> Ir<'ctx> {
    /// The steps taken so far.
    pub closed spec fn steps(self) -> Seq<Step> {
        self.steps@
    }

    /// The LLVM values that the steps gave.
    pub closed spec fn values(self) -> Seq<AnyValueEnum<'ctx>> {
        self.values@
    }

    /// Whether the value of each step is kept.
    pub open spec fn wf(self) -> bool {
        self.values().len() == self.steps().len() <= usize::MAX
    }

    /// The functions of the module by their names.
    pub closed spec fn declared(self) -> Map<Seq<char>, Declared> {
        functions(self.module)
    }

    /// The types of pointers by which those are told apart that do not point to numbers.
    pub closed spec fn listed(self) -> Seq<Seq<char>> {
        texts(self.types@)
    }

    /// The signatures of the functions of the module.
    pub open spec fn functions(self) -> Map<Seq<char>, Signature> {
        signatures(self.listed(), self.declared())
    }

    /// The block that code goes to: the name of its function, and the name that was asked for it.
    pub closed spec fn block(self) -> Option<(Seq<char>, Seq<char>)> {
        self.block@
    }

    /// Whether the builder stands in a block of a function.
    pub closed spec fn positioned(self) -> bool {
        in_function(self.builder)
    }

    /// Whether `pointer` is of the same context as the module.
    pub closed spec fn shares_context(self, pointer: PointerValue<'ctx>) -> bool {
        of_context(self.module, pointer)
    }

    /// The number of the next step.
    pub open spec fn next(self) -> usize {
        self.steps().len() as usize
    }

    /// Nothing built yet. The code goes to `module`, to no block at first.
    pub fn new(module: Module<'ctx>) -> (r: Self)
        ensures
            r.wf(),
            r.steps() == Seq::<Step>::empty(),
            r.declared() == functions(module),
            r.listed() == Seq::<Seq<char>>::empty(),
            r.block() is None,
            !r.positioned(),
            forall|pointer: PointerValue<'ctx>|
                #[trigger] r.shares_context(pointer) == of_context(module, pointer),
    {
        let builder = create_builder(&module);
        let r = Ir {
            builder,
            module,
            types: Vec::new(),
            values: Vec::new(),
            steps: Ghost(Seq::empty()),
            block: Ghost(None),
        };
        assert(r.listed() =~= Seq::empty());
        r
    }

    /// The module with the code that was built.
    pub fn into_module(self) -> (r: Module<'ctx>)
        ensures
            functions(r) == self.declared(),
    {
        self.module
    }

    /// Whether the builder stands in a block of a function.
    pub fn is_positioned(&self) -> (r: bool)
        ensures
            r == self.positioned(),
    {
        has_insert_block(&self.builder)
    }

    /// `ContextRef::append_basic_block`: a new block at the end of a function, where
    /// `Builder::position_at_end` puts the builder.
    #[verifier::external_body]
    pub(crate) fn append_block(&mut self, function: &str, name: &str)
        requires
            old(self).declared().contains_key(function@),
        ensures
            final(self).steps() == old(self).steps(),
            final(self).values() == old(self).values(),
            final(self).declared() == old(self).declared(),
            final(self).listed() == old(self).listed(),
            final(self).block() == Some((function@, name@)),
            final(self).positioned(),
    {
        let callee = self.module.get_function(function).unwrap();
        let block = self.module.get_context().append_basic_block(callee, name);
        self.builder.position_at_end(block);
    }

    /// The LLVM value that a step gave.
    pub fn llvm_value(&self, id: usize) -> (r: &AnyValueEnum<'ctx>)
        requires
            self.wf(),
            id < self.steps().len(),
        ensures
            *r == self.values()[id as int],
    {
        &self.values[id]
    }

    /// Whether the module has a function of that name.
    pub fn has_function(&self, name: &str) -> (r: bool)
        ensures
            r == self.functions().contains_key(name@),
            r == self.declared().contains_key(name@),
    {
        function_type(&self.module, name).is_some()
    }

    /// Whether values are handled of the types of all parameters of a function.
    pub fn knows_params(&self, name: &str) -> (r: bool)
        ensures
            r == (self.functions().contains_key(name@) && self.functions()[name@].known),
    {
        match function_type(&self.module, name) {
            Some(text) => read_function(&self.types, text.as_str()).known,
            None => false,
        }
    }

    /// The types of the parameters of a function of the module.
    pub fn get_params(&self, name: &str) -> (r: Vec<BasicType>)
        requires
            self.functions().contains_key(name@),
            self.functions()[name@].known,
        ensures
            r@ == self.functions()[name@].params,
            forall|i: int|
                0 <= i < r.len() ==> (#[trigger] r[i] matches BasicType::Int { width } ==> 1
                    <= width <= max_width()),
    {
        let params = get_params(&self.module, name);
        let mut kinds: Vec<BasicType> = Vec::new();
        for i in 0..params.len()
            invariant
                kinds.len() == i,
                forall|j: int|
                    0 <= j < i ==> #[trigger] kinds[j] == basic_type(self.listed(), params[j]@),
        {
            kinds.push(read_type(&self.types, params[i].as_str()));
        }
        assert(kinds@ =~= self.functions()[name@].params);
        kinds
    }

    /// The type of the result of a function of the module.
    pub fn get_return_type(&self, name: &str) -> (r: Option<BasicType>)
        requires
            self.functions().contains_key(name@),
        ensures
            r == self.functions()[name@].result,
    {
        match function_type(&self.module, name) {
            Some(text) => read_function(&self.types, text.as_str()).result,
            None => None,
        }
    }

    /// Keeps a pointer from elsewhere, as the `AnyValueEnum` that `From` makes of it.
    #[verifier::external_body]
    fn keep_pointer(
        &mut self,
        pointer: PointerValue<'ctx>,
        pointee: BasicType,
        target: Target,
    ) -> (r: PointerRef)
        requires
            old(self).wf(),
            old(self).shares_context(pointer),
            pointee == basic_type(old(self).listed(), pointee_text(pointer_text(pointer))),
            basic_type(old(self).listed(), pointer_text(pointer)) == (BasicType::Pointer {
                target,
            }),
        ensures
            r == (PointerRef { id: old(self).next(), target }),
            grown(
                *old(self),
                *final(self),
                Operation::Slot { pointee, target },
                Some(BasicValue::Pointer(r)),
            ),
    {
        let id = self.values.len();
        self.values.push(pointer.into());
        PointerRef { id, target }
    }

    /// Takes up a pointer from elsewhere, if it is one of the same context that tells what it
    /// points to.
    pub fn slot(&mut self, pointer: PointerValue<'ctx>) -> (r: Option<Slot>)
        requires
            old(self).wf(),
        ensures
            (match r {
                Some(slot) => {
                    let pointee = pointee_text(pointer_text(pointer));
                    let listed = listed_with(old(self).listed(), pointee);
                    &&& takes_up(*old(self), pointer)
                    &&& final(self).wf()
                    &&& slot == slot_of(old(self).next(), listed, pointer)
                    &&& kept(old(self).values(), final(self).values())
                    &&& final(self).steps() == old(self).steps().push(slot_step(slot))
                    &&& final(self).listed() == listed
                    &&& final(self).declared() == old(self).declared()
                    &&& final(self).block() == old(self).block()
                    &&& final(self).positioned() == old(self).positioned()
                },
                None => !takes_up(*old(self), pointer) && *final(self) == *old(self),
            }),
    {
        if !has_context(&self.module, &pointer) {
            return None;
        }
        let text = pointer_type(&pointer);
        if !ends_with_star(text.as_str()) {
            return None;
        }
        let held = read_pointee(text.as_str());
        let pointee = read_type(&self.types, held);
        if pointee == (BasicType::Pointer { target: Target::Unlisted }) && !is_unnamed(held) {
            self.types.push(held.to_string());
        }
        assert(self.listed() =~= listed_with(old(self).listed(), held@));
        let pointee = read_type(&self.types, held);
        let target = read_target(&self.types, text.as_str());
        let pointer = self.keep_pointer(pointer, pointee, target);
        Some(Slot { pointer, pointee })
    }

    /// `IntType::const_int`: the constant of `width` bits that `value` truncates to.
    #[verifier::external_body]
    pub(crate) fn const_int(&mut self, width: u32, value: u64, sign_extend: bool) -> (r: IntRef)
        requires
            old(self).wf(),
            1 <= width <= 64,
        ensures
            r == (IntRef { id: old(self).next(), width, constant: true }),
            grown(
                *old(self),
                *final(self),
                Operation::ConstInt { width, value, sign_extend },
                Some(BasicValue::Int(r)),
            ),
    {
        let kind = self.module.get_context().custom_width_int_type(width);
        let made = kind.const_int(value, sign_extend);
        let id = self.values.len();
        self.values.push(made.into());
        IntRef { id, width: made.get_type().get_bit_width(), constant: made.is_const() }
    }

    /// The single precision constant nearest to the double that `bits` encode: the bits are a
    /// constant that `Builder::build_bitcast` reads as a double and `FloatValue::const_cast`
    /// rounds.
    #[verifier::external_body]
    pub(crate) fn const_float(&mut self, bits: u64) -> (r: FloatRef)
        requires
            old(self).wf(),
        ensures
            r == (FloatRef {
                id: old(self).next(),
                precision: Precision::Single,
                constant: true,
            }),
            grown(
                *old(self),
                *final(self),
                Operation::ConstFloat { bits },
                Some(BasicValue::Float(r)),
            ),
    {
        let bits = self.module.get_context().i64_type().const_int(bits, false);
        let double = self.builder.build_bitcast(bits, self.module.get_context().f64_type(), "");
        let made = double.into_float_value().const_cast(self.module.get_context().f32_type());
        let id = self.values.len();
        self.values.push(made.into());
        FloatRef { id, precision: Precision::Single, constant: made.is_const() }
    }

    /// `IntType::const_array`, of the type of the first element: the constant array of
    /// `elements`. LLVM takes constants of that one type only.
    #[verifier::external_body]
    pub(crate) fn const_array(&mut self, elements: &Vec<IntRef>) -> (r: ArrayRef)
        requires
            old(self).wf(),
            0 < elements.len() <= u32::MAX,
            forall|i: int|
                #![trigger elements[i]]
                0 <= i < elements.len() ==> {
                    &&& defined(old(self).steps(), BasicValue::Int(elements[i]))
                    &&& elements[i].constant
                    &&& elements[i].width == elements[0].width
                },
        ensures
            r == (ArrayRef { id: old(self).next(), sized: true }),
            grown(
                *old(self),
                *final(self),
                Operation::ConstArray { elements: elements@ },
                Some(BasicValue::Array(r)),
            ),
    {
        let parts = elements.iter().map(|element| self.values[element.id].into_int_value());
        let parts: Vec<inkwell::values::IntValue<'ctx>> = parts.collect();
        let made = parts[0].get_type().const_array(&parts);
        let id = self.values.len();
        self.values.push(made.into());
        ArrayRef { id, sized: true }
    }

    /// `IntValue::const_signed_to_float`: the single precision constant nearest to `value`. LLVM
    /// takes a constant only.
    #[verifier::external_body]
    pub(crate) fn const_signed_to_float(&mut self, value: IntRef) -> (r: FloatRef)
        requires
            old(self).wf(),
            defined(old(self).steps(), BasicValue::Int(value)),
            value.constant,
        ensures
            r == (FloatRef {
                id: old(self).next(),
                precision: Precision::Single,
                constant: true,
            }),
            grown(
                *old(self),
                *final(self),
                Operation::ConstSignedToFloat { value },
                Some(BasicValue::Float(r)),
            ),
    {
        let value = self.values[value.id].into_int_value();
        let made = value.const_signed_to_float(self.module.get_context().f32_type());
        let id = self.values.len();
        self.values.push(made.into());
        FloatRef { id, precision: Precision::Single, constant: made.is_const() }
    }

    /// `Builder::build_global_string_ptr`: a pointer to the bytes of a new global string. It needs
    /// a builder that stands in a block of a function. Of a text with a NUL in it, LLVM gets what
    /// comes before.
    #[verifier::external_body]
    pub(crate) fn build_global_string_ptr(&mut self, text: &str, name: &str) -> (r: PointerRef)
        requires
            old(self).wf(),
            old(self).positioned(),
        ensures
            r == (PointerRef { id: old(self).next(), target: Target::Int { width: 8 } }),
            grown(
                *old(self),
                *final(self),
                Operation::GlobalString { text: before_nul(text@), name: name@ },
                Some(BasicValue::Pointer(r)),
            ),
    {
        let made = self.builder.build_global_string_ptr(text, name).as_pointer_value();
        let id = self.values.len();
        self.values.push(made.into());
        PointerRef { id, target: Target::Int { width: 8 } }
    }

    /// `Builder::build_load`: what `slot` holds, by the number of the step. It needs a builder
    /// that stands in a block of a function, and a slot that holds something whose size LLVM knows
    /// and that inkwell has values of. What is loaded has the type that the slot points to and is
    /// no constant.
    #[verifier::external_body]
    pub(crate) fn build_load(&mut self, slot: Slot, name: &str) -> (r: usize)
        requires
            old(self).wf(),
            slot_defined(old(self).steps(), slot),
            loadable(slot.pointee),
            old(self).positioned(),
        ensures
            r == old(self).next(),
            grown(
                *old(self),
                *final(self),
                Operation::Load { pointer: slot.pointer, name: name@ },
                Some(value_of(slot.pointee, r, false)),
            ),
    {
        let pointer = self.values[slot.pointer.id].into_pointer_value();
        let loaded = self.builder.build_load(pointer, name);
        let id = self.values.len();
        self.values.push(loaded.into());
        id
    }

    /// `Builder::build_cast` with `SIToFP`: the signed integer `value` in single precision.
    /// Of a constant LLVM makes a constant.
    #[verifier::external_body]
    pub(crate) fn build_signed_to_float(&mut self, value: IntRef, name: &str) -> (r: FloatRef)
        requires
            old(self).wf(),
            defined(old(self).steps(), BasicValue::Int(value)),
        ensures
            r == (FloatRef {
                id: old(self).next(),
                precision: Precision::Single,
                constant: value.constant,
            }),
            grown(
                *old(self),
                *final(self),
                Operation::SignedToFloat { value, name: name@ },
                Some(BasicValue::Float(r)),
            ),
    {
        let value = self.values[value.id].into_int_value();
        let single = self.module.get_context().f32_type();
        let cast = self.builder.build_cast(InstructionOpcode::SIToFP, value, single, name);
        let id = self.values.len();
        self.values.push(cast.into());
        let constant = cast.into_float_value().is_const();
        FloatRef { id, precision: Precision::Single, constant }
    }

    /// `Builder::build_int_truncate`: `value` cut down to `width` bits, which must not be more
    /// than it has. Of a constant LLVM makes a constant.
    #[verifier::external_body]
    pub(crate) fn build_int_truncate(
        &mut self,
        value: IntRef,
        width: u32,
        name: &str,
    ) -> (r: IntRef)
        requires
            old(self).wf(),
            defined(old(self).steps(), BasicValue::Int(value)),
            1 <= width <= value.width,
        ensures
            r == (IntRef { id: old(self).next(), width, constant: value.constant }),
            grown(
                *old(self),
                *final(self),
                Operation::IntTruncate { value, width, name: name@ },
                Some(BasicValue::Int(r)),
            ),
    {
        let value = self.values[value.id].into_int_value();
        let kind = self.module.get_context().custom_width_int_type(width);
        let cast = self.builder.build_int_truncate(value, kind, name);
        let id = self.values.len();
        self.values.push(cast.into());
        IntRef { id, width: cast.get_type().get_bit_width(), constant: cast.is_const() }
    }

    /// `Builder::build_int_cast`: the signed integer `value` cut down or extended to `width`
    /// bits, of which LLVM takes up to 2^23. Of a constant LLVM makes a constant.
    #[verifier::external_body]
    pub(crate) fn build_int_cast(
        &mut self,
        value: IntRef,
        width: u32,
        name: &str,
    ) -> (r: IntRef)
        requires
            old(self).wf(),
            defined(old(self).steps(), BasicValue::Int(value)),
            1 <= width <= max_width(),
        ensures
            r == (IntRef { id: old(self).next(), width, constant: value.constant }),
            grown(
                *old(self),
                *final(self),
                Operation::IntCast { value, width, name: name@ },
                Some(BasicValue::Int(r)),
            ),
    {
        let value = self.values[value.id].into_int_value();
        let kind = self.module.get_context().custom_width_int_type(width);
        let cast = self.builder.build_int_cast(value, kind, name);
        let id = self.values.len();
        self.values.push(cast.into());
        IntRef { id, width: cast.get_type().get_bit_width(), constant: cast.is_const() }
    }

    /// `Builder::build_int_add`: the sum of `lhs` and `rhs`. LLVM takes
    /// integers of one width only, and of two constants it makes a constant.
    #[verifier::external_body]
    pub(crate) fn build_int_add(&mut self, lhs: IntRef, rhs: IntRef, name: &str) -> (r: IntRef)
        requires
            old(self).wf(),
            defined(old(self).steps(), BasicValue::Int(lhs)),
            defined(old(self).steps(), BasicValue::Int(rhs)),
            lhs.width == rhs.width,
        ensures
            r == combined(old(self).next(), lhs, rhs),
            grown(
                *old(self),
                *final(self),
                Operation::IntMath { operator: IntOperator::Add, lhs, rhs, name: name@ },
                Some(BasicValue::Int(r)),
            ),
    {
        let lhs = self.values[lhs.id].into_int_value();
        let rhs = self.values[rhs.id].into_int_value();
        let made = self.builder.build_int_add(lhs, rhs, name);
        let id = self.values.len();
        self.values.push(made.into());
        IntRef { id, width: made.get_type().get_bit_width(), constant: made.is_const() }
    }

    /// `Builder::build_int_sub`: the difference of `lhs` and `rhs`. LLVM takes
    /// integers of one width only, and of two constants it makes a constant.
    #[verifier::external_body]
    pub(crate) fn build_int_sub(&mut self, lhs: IntRef, rhs: IntRef, name: &str) -> (r: IntRef)
        requires
            old(self).wf(),
            defined(old(self).steps(), BasicValue::Int(lhs)),
            defined(old(self).steps(), BasicValue::Int(rhs)),
            lhs.width == rhs.width,
        ensures
            r == combined(old(self).next(), lhs, rhs),
            grown(
                *old(self),
                *final(self),
                Operation::IntMath { operator: IntOperator::Sub, lhs, rhs, name: name@ },
                Some(BasicValue::Int(r)),
            ),
    {
        let lhs = self.values[lhs.id].into_int_value();
        let rhs = self.values[rhs.id].into_int_value();
        let made = self.builder.build_int_sub(lhs, rhs, name);
        let id = self.values.len();
        self.values.push(made.into());
        IntRef { id, width: made.get_type().get_bit_width(), constant: made.is_const() }
    }

    /// `Builder::build_int_mul`: the product of `lhs` and `rhs`. LLVM takes
    /// integers of one width only, and of two constants it makes a constant.
    #[verifier::external_body]
    pub(crate) fn build_int_mul(&mut self, lhs: IntRef, rhs: IntRef, name: &str) -> (r: IntRef)
        requires
            old(self).wf(),
            defined(old(self).steps(), BasicValue::Int(lhs)),
            defined(old(self).steps(), BasicValue::Int(rhs)),
            lhs.width == rhs.width,
        ensures
            r == combined(old(self).next(), lhs, rhs),
            grown(
                *old(self),
                *final(self),
                Operation::IntMath { operator: IntOperator::Mul, lhs, rhs, name: name@ },
                Some(BasicValue::Int(r)),
            ),
    {
        let lhs = self.values[lhs.id].into_int_value();
        let rhs = self.values[rhs.id].into_int_value();
        let made = self.builder.build_int_mul(lhs, rhs, name);
        let id = self.values.len();
        self.values.push(made.into());
        IntRef { id, width: made.get_type().get_bit_width(), constant: made.is_const() }
    }

    /// `Builder::build_int_signed_div`: the signed quotient of `lhs` and `rhs`. LLVM takes
    /// integers of one width only, and of two constants it makes a constant.
    #[verifier::external_body]
    pub(crate) fn build_int_signed_div(
        &mut self,
        lhs: IntRef,
        rhs: IntRef,
        name: &str,
    ) -> (r: IntRef)
        requires
            old(self).wf(),
            defined(old(self).steps(), BasicValue::Int(lhs)),
            defined(old(self).steps(), BasicValue::Int(rhs)),
            lhs.width == rhs.width,
        ensures
            r == combined(old(self).next(), lhs, rhs),
            grown(
                *old(self),
                *final(self),
                Operation::IntMath { operator: IntOperator::SignedDiv, lhs, rhs, name: name@ },
                Some(BasicValue::Int(r)),
            ),
    {
        let lhs = self.values[lhs.id].into_int_value();
        let rhs = self.values[rhs.id].into_int_value();
        let made = self.builder.build_int_signed_div(lhs, rhs, name);
        let id = self.values.len();
        self.values.push(made.into());
        IntRef { id, width: made.get_type().get_bit_width(), constant: made.is_const() }
    }

    /// `Builder::build_int_signed_rem`: the signed remainder of `lhs` and `rhs`. LLVM takes
    /// integers of one width only, and of two constants it makes a constant.
    #[verifier::external_body]
    pub(crate) fn build_int_signed_rem(
        &mut self,
        lhs: IntRef,
        rhs: IntRef,
        name: &str,
    ) -> (r: IntRef)
        requires
            old(self).wf(),
            defined(old(self).steps(), BasicValue::Int(lhs)),
            defined(old(self).steps(), BasicValue::Int(rhs)),
            lhs.width == rhs.width,
        ensures
            r == combined(old(self).next(), lhs, rhs),
            grown(
                *old(self),
                *final(self),
                Operation::IntMath { operator: IntOperator::SignedRem, lhs, rhs, name: name@ },
                Some(BasicValue::Int(r)),
            ),
    {
        let lhs = self.values[lhs.id].into_int_value();
        let rhs = self.values[rhs.id].into_int_value();
        let made = self.builder.build_int_signed_rem(lhs, rhs, name);
        let id = self.values.len();
        self.values.push(made.into());
        IntRef { id, width: made.get_type().get_bit_width(), constant: made.is_const() }
    }

    /// `Builder::build_float_add`: the sum of `lhs` and `rhs`. LLVM takes
    /// numbers of one precision only, and of two constants it makes a constant.
    #[verifier::external_body]
    pub(crate) fn build_float_add(
        &mut self,
        lhs: FloatRef,
        rhs: FloatRef,
        name: &str,
    ) -> (r: FloatRef)
        requires
            old(self).wf(),
            defined(old(self).steps(), BasicValue::Float(lhs)),
            defined(old(self).steps(), BasicValue::Float(rhs)),
            lhs.precision == rhs.precision,
        ensures
            r == float_combined(old(self).next(), lhs, rhs),
            grown(
                *old(self),
                *final(self),
                Operation::FloatMath { operator: FloatOperator::Add, lhs, rhs, name: name@ },
                Some(BasicValue::Float(r)),
            ),
    {
        let left = self.values[lhs.id].into_float_value();
        let right = self.values[rhs.id].into_float_value();
        let made = self.builder.build_float_add(left, right, name);
        let id = self.values.len();
        self.values.push(made.into());
        FloatRef { id, precision: lhs.precision, constant: made.is_const() }
    }

    /// `Builder::build_float_sub`: the difference of `lhs` and `rhs`. LLVM takes
    /// numbers of one precision only, and of two constants it makes a constant.
    #[verifier::external_body]
    pub(crate) fn build_float_sub(
        &mut self,
        lhs: FloatRef,
        rhs: FloatRef,
        name: &str,
    ) -> (r: FloatRef)
        requires
            old(self).wf(),
            defined(old(self).steps(), BasicValue::Float(lhs)),
            defined(old(self).steps(), BasicValue::Float(rhs)),
            lhs.precision == rhs.precision,
        ensures
            r == float_combined(old(self).next(), lhs, rhs),
            grown(
                *old(self),
                *final(self),
                Operation::FloatMath { operator: FloatOperator::Sub, lhs, rhs, name: name@ },
                Some(BasicValue::Float(r)),
            ),
    {
        let left = self.values[lhs.id].into_float_value();
        let right = self.values[rhs.id].into_float_value();
        let made = self.builder.build_float_sub(left, right, name);
        let id = self.values.len();
        self.values.push(made.into());
        FloatRef { id, precision: lhs.precision, constant: made.is_const() }
    }

    /// `Builder::build_float_mul`: the product of `lhs` and `rhs`. LLVM takes
    /// numbers of one precision only, and of two constants it makes a constant.
    #[verifier::external_body]
    pub(crate) fn build_float_mul(
        &mut self,
        lhs: FloatRef,
        rhs: FloatRef,
        name: &str,
    ) -> (r: FloatRef)
        requires
            old(self).wf(),
            defined(old(self).steps(), BasicValue::Float(lhs)),
            defined(old(self).steps(), BasicValue::Float(rhs)),
            lhs.precision == rhs.precision,
        ensures
            r == float_combined(old(self).next(), lhs, rhs),
            grown(
                *old(self),
                *final(self),
                Operation::FloatMath { operator: FloatOperator::Mul, lhs, rhs, name: name@ },
                Some(BasicValue::Float(r)),
            ),
    {
        let left = self.values[lhs.id].into_float_value();
        let right = self.values[rhs.id].into_float_value();
        let made = self.builder.build_float_mul(left, right, name);
        let id = self.values.len();
        self.values.push(made.into());
        FloatRef { id, precision: lhs.precision, constant: made.is_const() }
    }

    /// `Builder::build_float_div`: the quotient of `lhs` and `rhs`. LLVM takes
    /// numbers of one precision only, and of two constants it makes a constant.
    #[verifier::external_body]
    pub(crate) fn build_float_div(
        &mut self,
        lhs: FloatRef,
        rhs: FloatRef,
        name: &str,
    ) -> (r: FloatRef)
        requires
            old(self).wf(),
            defined(old(self).steps(), BasicValue::Float(lhs)),
            defined(old(self).steps(), BasicValue::Float(rhs)),
            lhs.precision == rhs.precision,
        ensures
            r == float_combined(old(self).next(), lhs, rhs),
            grown(
                *old(self),
                *final(self),
                Operation::FloatMath { operator: FloatOperator::Div, lhs, rhs, name: name@ },
                Some(BasicValue::Float(r)),
            ),
    {
        let left = self.values[lhs.id].into_float_value();
        let right = self.values[rhs.id].into_float_value();
        let made = self.builder.build_float_div(left, right, name);
        let id = self.values.len();
        self.values.push(made.into());
        FloatRef { id, precision: lhs.precision, constant: made.is_const() }
    }

    /// `Builder::build_float_rem`: the remainder of `lhs` and `rhs`. LLVM takes
    /// numbers of one precision only, and of two constants it makes a constant.
    #[verifier::external_body]
    pub(crate) fn build_float_rem(
        &mut self,
        lhs: FloatRef,
        rhs: FloatRef,
        name: &str,
    ) -> (r: FloatRef)
        requires
            old(self).wf(),
            defined(old(self).steps(), BasicValue::Float(lhs)),
            defined(old(self).steps(), BasicValue::Float(rhs)),
            lhs.precision == rhs.precision,
        ensures
            r == float_combined(old(self).next(), lhs, rhs),
            grown(
                *old(self),
                *final(self),
                Operation::FloatMath { operator: FloatOperator::Rem, lhs, rhs, name: name@ },
                Some(BasicValue::Float(r)),
            ),
    {
        let left = self.values[lhs.id].into_float_value();
        let right = self.values[rhs.id].into_float_value();
        let made = self.builder.build_float_rem(left, right, name);
        let id = self.values.len();
        self.values.push(made.into());
        FloatRef { id, precision: lhs.precision, constant: made.is_const() }
    }

    /// `Builder::build_int_compare`: one bit that tells whether `predicate` holds. LLVM takes
    /// integers of one width only, and of two constants it makes a constant.
    #[verifier::external_body]
    pub(crate) fn build_int_compare(
        &mut self,
        predicate: IntPredicate,
        lhs: IntRef,
        rhs: IntRef,
        name: &str,
    ) -> (r: IntRef)
        requires
            old(self).wf(),
            defined(old(self).steps(), BasicValue::Int(lhs)),
            defined(old(self).steps(), BasicValue::Int(rhs)),
            lhs.width == rhs.width,
        ensures
            r == compared(old(self).next(), lhs.constant && rhs.constant),
            grown(
                *old(self),
                *final(self),
                Operation::IntCompare { predicate, lhs, rhs, name: name@ },
                Some(BasicValue::Int(r)),
            ),
    {
        let lhs = self.values[lhs.id].into_int_value();
        let rhs = self.values[rhs.id].into_int_value();
        let predicate = match predicate {
            IntPredicate::EQ => inkwell::IntPredicate::EQ,
            IntPredicate::NE => inkwell::IntPredicate::NE,
            IntPredicate::SGT => inkwell::IntPredicate::SGT,
            IntPredicate::SLT => inkwell::IntPredicate::SLT,
            IntPredicate::SGE => inkwell::IntPredicate::SGE,
            IntPredicate::SLE => inkwell::IntPredicate::SLE,
        };
        let made = self.builder.build_int_compare(predicate, lhs, rhs, name);
        let id = self.values.len();
        self.values.push(made.into());
        IntRef { id, width: made.get_type().get_bit_width(), constant: made.is_const() }
    }

    /// `Builder::build_float_compare`: one bit that tells whether `predicate` holds. LLVM takes
    /// numbers of one precision only, and of two constants it makes a constant.
    #[verifier::external_body]
    pub(crate) fn build_float_compare(
        &mut self,
        predicate: FloatPredicate,
        lhs: FloatRef,
        rhs: FloatRef,
        name: &str,
    ) -> (r: IntRef)
        requires
            old(self).wf(),
            defined(old(self).steps(), BasicValue::Float(lhs)),
            defined(old(self).steps(), BasicValue::Float(rhs)),
            lhs.precision == rhs.precision,
        ensures
            r == compared(old(self).next(), lhs.constant && rhs.constant),
            grown(
                *old(self),
                *final(self),
                Operation::FloatCompare { predicate, lhs, rhs, name: name@ },
                Some(BasicValue::Int(r)),
            ),
    {
        let lhs = self.values[lhs.id].into_float_value();
        let rhs = self.values[rhs.id].into_float_value();
        let predicate = match predicate {
            FloatPredicate::OEQ => inkwell::FloatPredicate::OEQ,
            FloatPredicate::ONE => inkwell::FloatPredicate::ONE,
            FloatPredicate::OGT => inkwell::FloatPredicate::OGT,
            FloatPredicate::OLT => inkwell::FloatPredicate::OLT,
            FloatPredicate::OGE => inkwell::FloatPredicate::OGE,
            FloatPredicate::OLE => inkwell::FloatPredicate::OLE,
        };
        let made = self.builder.build_float_compare(predicate, lhs, rhs, name);
        let id = self.values.len();
        self.values.push(made.into());
        IntRef { id, width: made.get_type().get_bit_width(), constant: made.is_const() }
    }

    /// `Builder::build_call` of a function of the module, marked by `CallSiteValue::set_tail_call`.
    /// `CallSiteValue::try_as_basic_value` tells whether a value came of it, which then has the
    /// number of the step, the type of the function's result, and is no constant. LLVM takes one
    /// argument for each parameter, of the parameter's type, and inkwell panics where the result
    /// has a type that it has no values of. Where the builder stands in no block, LLVM makes the
    /// call and puts it nowhere.
    #[verifier::external_body]
    pub(crate) fn build_call(
        &mut self,
        function: &str,
        arguments: &Vec<BasicValue>,
        name: &str,
        tail: bool,
    ) -> (r: Option<usize>)
        requires
            old(self).wf(),
            old(self).functions().contains_key(function@),
            arguments.len() == old(self).functions()[function@].params.len(),
            forall|i: int|
                #![trigger arguments[i]]
                0 <= i < arguments.len() ==> {
                    &&& defined(old(self).steps(), arguments[i])
                    &&& arguments[i].kind() == old(self).functions()[function@].params[i]
                    &&& definite(arguments[i].kind())
                },
            old(self).functions()[function@].result != Some(BasicType::Unknown),
        ensures
            r == (match old(self).functions()[function@].result {
                Some(_) => Some(old(self).next()),
                None => None,
            }),
            grown(
                *old(self),
                *final(self),
                Operation::Call { function: function@, arguments: arguments@, name: name@, tail },
                (match old(self).functions()[function@].result {
                    Some(kind) => Some(value_of(kind, old(self).next(), false)),
                    None => None,
                }),
            ),
    {
        let callee = self.module.get_function(function).unwrap();
        let passed = arguments.iter().map(|argument| self.values[argument.id()]);
        let passed: Vec<BasicMetadataValueEnum<'ctx>> =
            passed.map(|value| value.try_into().unwrap()).collect();
        let site = self.builder.build_call(callee, &passed, name);
        site.set_tail_call(tail);
        let id = self.values.len();
        self.values.push(site.as_any_value_enum());
        match site.try_as_basic_value() {
            Either::Left(_) => Some(id),
            Either::Right(_) => None,
        }
    }
}

} // verus!
