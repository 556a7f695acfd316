//! Values of generated code: what the code generator knows of a value that LLVM holds.
use vstd::prelude::*;

verus! {

/// The types that the source language tells apart.
#[derive(Clone, Copy, Debug, PartialEq, Eq, Structural)]
pub enum ValueType {
    Void,
    Bool,
    I8,
    I16,
    F32,
    Str,
    Array,
}

/// The floating point types of LLVM.
#[derive(Clone, Copy, Debug, PartialEq, Eq, Structural)]
pub enum Precision {
    Half,
    Single,
    Double,
    /// The extended precision of x86.
    Extended,
    Quadruple,
    /// Two doubles, as PowerPC has them.
    PairedDouble,
}

/// What a pointer points to, as far as it is told apart.
#[derive(Clone, Copy, Debug, PartialEq, Eq, Structural)]
pub enum Target {
    Int { width: u32 },
    Float { precision: Precision },
    /// Anything else; the type of the pointer is number `number` of those that were listed.
    Listed { number: usize },
    /// Anything else, by a pointer of a type that was not listed.
    Unlisted,
}

/// The types of LLVM values, as far as code generation looks at them.
#[derive(Clone, Copy, Debug, PartialEq, Eq, Structural)]
pub enum BasicType {
    /// An array; `sized` if no named struct is part of it, so that LLVM knows how large it is.
    Array { sized: bool },
    Float { precision: Precision },
    Int { width: u32 },
    Pointer { target: Target },
    Struct,
    Vector,
    /// A type that no value is handled of.
    Unknown,
}

/// An integer that LLVM holds: the step that built it, its width in bits, and whether it is a
/// constant.
#[derive(Clone, Copy, Debug, PartialEq, Eq, Structural)]
pub struct IntRef {
    pub id: usize,
    pub width: u32,
    pub constant: bool,
}

/// A floating point number that LLVM holds: the step that built it, its precision, and whether it
/// is a constant.
#[derive(Clone, Copy, Debug, PartialEq, Eq, Structural)]
pub struct FloatRef {
    pub id: usize,
    pub precision: Precision,
    pub constant: bool,
}

/// A pointer that LLVM holds: the step that built it, and what it points to.
#[derive(Clone, Copy, Debug, PartialEq, Eq, Structural)]
pub struct PointerRef {
    pub id: usize,
    pub target: Target,
}

/// An array that LLVM holds: the step that built it, and whether its type is known to be sized.
#[derive(Clone, Copy, Debug, PartialEq, Eq, Structural)]
pub struct ArrayRef {
    pub id: usize,
    pub sized: bool,
}

/// A value that LLVM holds, of any type.
#[derive(Clone, Copy, Debug, PartialEq, Eq, Structural)]
pub enum BasicValue {
    Array(ArrayRef),
    Float(FloatRef),
    Int(IntRef),
    Pointer(PointerRef),
    Struct { id: usize },
    Vector { id: usize },
}

/// A value of the source language.
#[derive(Clone, Copy, Debug, PartialEq, Eq, Structural)]
#[allow(inconsistent_fields)]
pub enum Value {
    Void,
    Bool { value: IntRef },
    I8 { value: IntRef },
    I16 { value: IntRef },
    F32 { value: FloatRef },
    Str { value: PointerRef },
    Array { value: ArrayRef },
}

/// What can be told of a value before it is built: its type, the type of the LLVM value that stands
/// for it, and of a number whether it is a constant. Of anything else `constant` is false.
#[derive(Clone, Copy, Debug, PartialEq, Eq, Structural)]
pub struct Shape {
    pub value_type: ValueType,
    pub kind: Option<BasicType>,
    pub constant: bool,
}

/// The value of type `kind` that step `id` built.
pub open spec fn value_of(kind: BasicType, id: usize, constant: bool) -> BasicValue
    recommends
        !(kind is Unknown),
{
    match kind {
        BasicType::Array { sized } => BasicValue::Array(ArrayRef { id, sized }),
        BasicType::Float { precision } => BasicValue::Float(FloatRef { id, precision, constant }),
        BasicType::Int { width } => BasicValue::Int(IntRef { id, width, constant }),
        BasicType::Pointer { target } => BasicValue::Pointer(PointerRef { id, target }),
        BasicType::Vector => BasicValue::Vector { id },
        BasicType::Struct | BasicType::Unknown => BasicValue::Struct { id },
    }
}

/// Whether LLVM values of type `kind` stand for values of type `value_type`.
pub open spec fn stands_for(kind: BasicType, value_type: ValueType) -> bool {
    match value_type {
        ValueType::Void => false,
        ValueType::Bool | ValueType::I8 | ValueType::I16 => kind is Int,
        ValueType::F32 => kind is Float,
        ValueType::Str => kind is Pointer,
        ValueType::Array => kind == BasicType::Array { sized: true },
    }
}

/// Whether `kind` tells one type of LLVM from all others.
pub open spec fn definite(kind: BasicType) -> bool {
    match kind {
        BasicType::Int { .. } | BasicType::Float { .. } => true,
        BasicType::Pointer { target } => !(target is Unlisted),
        _ => false,
    }
}

/// The shape of a value of type `value_type` that an LLVM value of type `kind` stands for.
pub open spec fn shape_of(kind: BasicType, value_type: ValueType) -> Shape {
    Shape { value_type, kind: Some(kind), constant: false }
}

impl BasicType {
    /// Whether LLVM values of this type stand for values of type `value_type`.
    pub fn stands_for(self, value_type: ValueType) -> (r: bool)
        ensures
            r == stands_for(self, value_type),
    {
        match (value_type, self) {
            (ValueType::Bool, BasicType::Int { .. }) => true,
            (ValueType::I8, BasicType::Int { .. }) => true,
            (ValueType::I16, BasicType::Int { .. }) => true,
            (ValueType::F32, BasicType::Float { .. }) => true,
            (ValueType::Str, BasicType::Pointer { .. }) => true,
            (ValueType::Array, BasicType::Array { sized }) => sized,
            _ => false,
        }
    }

    /// Whether this tells one type of LLVM from all others.
    pub fn is_definite(self) -> (r: bool)
        ensures
            r == definite(self),
    {
        match self {
            BasicType::Int { .. } => true,
            BasicType::Float { .. } => true,
            BasicType::Pointer { target } => target != Target::Unlisted,
            _ => false,
        }
    }

    /// The shape of a value of type `value_type` that an LLVM value of this type stands for.
    pub fn shape(self, value_type: ValueType) -> (r: Shape)
        ensures
            r == shape_of(self, value_type),
    {
        Shape { value_type, kind: Some(self), constant: false }
    }

    /// The value of this type that step `id` built, which is no constant.
    pub fn value(self, id: usize) -> (r: BasicValue)
        ensures
            r == value_of(self, id, false),
    {
        match self {
            BasicType::Array { sized } => BasicValue::Array(ArrayRef { id, sized }),
            BasicType::Float { precision } => BasicValue::Float(
                FloatRef { id, precision, constant: false },
            ),
            BasicType::Int { width } => BasicValue::Int(IntRef { id, width, constant: false }),
            BasicType::Pointer { target } => BasicValue::Pointer(PointerRef { id, target }),
            BasicType::Vector => BasicValue::Vector { id },
            _ => BasicValue::Struct { id },
        }
    }
}

impl BasicValue {
    /// The type of the value.
    pub open spec fn kind(self) -> BasicType {
        match self {
            BasicValue::Array(value) => BasicType::Array { sized: value.sized },
            BasicValue::Float(value) => BasicType::Float { precision: value.precision },
            BasicValue::Int(value) => BasicType::Int { width: value.width },
            BasicValue::Pointer(value) => BasicType::Pointer { target: value.target },
            BasicValue::Struct { .. } => BasicType::Struct,
            BasicValue::Vector { .. } => BasicType::Vector,
        }
    }

    /// The step that built the value.
    pub open spec fn spec_id(self) -> usize {
        match self {
            BasicValue::Array(value) => value.id,
            BasicValue::Float(value) => value.id,
            BasicValue::Int(value) => value.id,
            BasicValue::Pointer(value) => value.id,
            BasicValue::Struct { id } => id,
            BasicValue::Vector { id } => id,
        }
    }

    /// The step that built the value.
    pub fn id(self) -> (r: usize)
        ensures
            r == self.spec_id(),
    {
        match self {
            BasicValue::Array(value) => value.id,
            BasicValue::Float(value) => value.id,
            BasicValue::Int(value) => value.id,
            BasicValue::Pointer(value) => value.id,
            BasicValue::Struct { id } => id,
            BasicValue::Vector { id } => id,
        }
    }
}

impl Value {
    /// The type of the value.
    pub open spec fn value_type(self) -> ValueType {
        match self {
            Value::Void => ValueType::Void,
            Value::Bool { .. } => ValueType::Bool,
            Value::I8 { .. } => ValueType::I8,
            Value::I16 { .. } => ValueType::I16,
            Value::F32 { .. } => ValueType::F32,
            Value::Str { .. } => ValueType::Str,
            Value::Array { .. } => ValueType::Array,
        }
    }

    /// The type of the value, with that of the LLVM value and whether it is a constant.
    pub open spec fn shape(self) -> Shape {
        Shape {
            value_type: self.value_type(),
            kind: match self.basic() {
                Some(basic) => Some(basic.kind()),
                None => None,
            },
            constant: match self {
                Value::Bool { value } | Value::I8 { value } | Value::I16 { value } => {
                    value.constant
                },
                Value::F32 { value } => value.constant,
                _ => false,
            },
        }
    }

    /// The LLVM value that stands for this one; there is none for `Void`.
    pub open spec fn basic(self) -> Option<BasicValue> {
        match self {
            Value::Void => None,
            Value::Bool { value } | Value::I8 { value } | Value::I16 { value } => Some(
                BasicValue::Int(value),
            ),
            Value::F32 { value } => Some(BasicValue::Float(value)),
            Value::Str { value } => Some(BasicValue::Pointer(value)),
            Value::Array { value } => Some(BasicValue::Array(value)),
        }
    }

    /// The value of type `value_type` that `value` stands for.
    pub open spec fn of_basic(value_type: ValueType, value: BasicValue) -> Value
        recommends
            stands_for(value.kind(), value_type),
    {
        match (value_type, value) {
            (ValueType::Bool, BasicValue::Int(value)) => Value::Bool { value },
            (ValueType::I8, BasicValue::Int(value)) => Value::I8 { value },
            (ValueType::I16, BasicValue::Int(value)) => Value::I16 { value },
            (ValueType::F32, BasicValue::Float(value)) => Value::F32 { value },
            (ValueType::Str, BasicValue::Pointer(value)) => Value::Str { value },
            (ValueType::Array, BasicValue::Array(value)) => Value::Array { value },
            _ => Value::Void,
        }
    }

    /// The type of the value.
    pub fn get_type(self) -> (r: ValueType)
        ensures
            r == self.value_type(),
    {
        match self {
            Value::Void => ValueType::Void,
            Value::Bool { .. } => ValueType::Bool,
            Value::I8 { .. } => ValueType::I8,
            Value::I16 { .. } => ValueType::I16,
            Value::F32 { .. } => ValueType::F32,
            Value::Str { .. } => ValueType::Str,
            Value::Array { .. } => ValueType::Array,
        }
    }

    /// The LLVM value that stands for this one.
    pub fn to_basic_value(self) -> (r: Option<BasicValue>)
        ensures
            r == self.basic(),
    {
        match self {
            Value::Void => None,
            Value::Bool { value } => Some(BasicValue::Int(value)),
            Value::I8 { value } => Some(BasicValue::Int(value)),
            Value::I16 { value } => Some(BasicValue::Int(value)),
            Value::F32 { value } => Some(BasicValue::Float(value)),
            Value::Str { value } => Some(BasicValue::Pointer(value)),
            Value::Array { value } => Some(BasicValue::Array(value)),
        }
    }

    /// The value of type `value_type` that `value` stands for.
    pub fn from_basic_value(value_type: ValueType, value: BasicValue) -> (r: Value)
        requires
            stands_for(value.kind(), value_type),
        ensures
            r == Value::of_basic(value_type, value),
            r.value_type() == value_type,
            r.basic() == Some(value),
    {
        match (value_type, value) {
            (ValueType::Bool, BasicValue::Int(value)) => Value::Bool { value },
            (ValueType::I8, BasicValue::Int(value)) => Value::I8 { value },
            (ValueType::I16, BasicValue::Int(value)) => Value::I16 { value },
            (ValueType::F32, BasicValue::Float(value)) => Value::F32 { value },
            (ValueType::Str, BasicValue::Pointer(value)) => Value::Str { value },
            (ValueType::Array, BasicValue::Array(value)) => Value::Array { value },
            _ => Value::Void,
        }
    }
}

impl ValueType {
    /// The type's name.
    pub open spec fn spec_name(self) -> Seq<char> {
        match self {
            ValueType::Void => "Void"@,
            ValueType::Bool => "Bool"@,
            ValueType::I8 => "I8"@,
            ValueType::I16 => "I16"@,
            ValueType::F32 => "F32"@,
            ValueType::Str => "Str"@,
            ValueType::Array => "Array"@,
        }
    }

    /// The type's name.
    pub fn name(self) -> (r: &'static str)
        ensures
            r@ == self.spec_name(),
    {
        match self {
            ValueType::Void => "Void",
            ValueType::Bool => "Bool",
            ValueType::I8 => "I8",
            ValueType::I16 => "I16",
            ValueType::F32 => "F32",
            ValueType::Str => "Str",
            ValueType::Array => "Array",
        }
    }
}

/// Each value tells its type and what LLVM holds for it, and the two give it back. Nothing is held
/// for `Void`.
pub proof fn value_given_back(value: Value)
    ensures
        match value {
            Value::Void => value.value_type() is Void && value.basic() is None,
            Value::Bool { value: number } => value.value_type() is Bool && value.basic() == Some(
                BasicValue::Int(number),
            ),
            Value::I8 { value: number } => value.value_type() is I8 && value.basic() == Some(
                BasicValue::Int(number),
            ),
            Value::I16 { value: number } => value.value_type() is I16 && value.basic() == Some(
                BasicValue::Int(number),
            ),
            Value::F32 { value: number } => value.value_type() is F32 && value.basic() == Some(
                BasicValue::Float(number),
            ),
            Value::Str { value: pointer } => value.value_type() is Str && value.basic() == Some(
                BasicValue::Pointer(pointer),
            ),
            Value::Array { value: array } => value.value_type() is Array && value.basic() == Some(
                BasicValue::Array(array),
            ),
        },
        value.basic() matches Some(basic) ==> Value::of_basic(value.value_type(), basic) == value,
{
}

/// What LLVM holds tells the step that built it and its type, and the two tell it, but for whether
/// it is a constant.
pub proof fn held_value_given_back(value: BasicValue, id: usize, kind: BasicType, constant: bool)
    ensures
        value_of(value.kind(), value.spec_id(), true) == value || value_of(
            value.kind(),
            value.spec_id(),
            false,
        ) == value,
        !(kind is Unknown) ==> value_of(kind, id, constant).kind() == kind,
        value_of(kind, id, constant).spec_id() == id,
        kind matches BasicType::Int { width } ==> value_of(kind, id, constant) == BasicValue::Int(
            IntRef { id, width, constant },
        ),
        kind matches BasicType::Float { precision } ==> value_of(kind, id, constant)
            == BasicValue::Float(FloatRef { id, precision, constant }),
{
}

/// Integers stand for booleans and integers, floating point numbers for such numbers, pointers for
/// strings and sized arrays for arrays, and nothing else does. What stands for a value of some type
/// makes such a value.
pub proof fn stand_for_one_another(kind: BasicType, value_type: ValueType, id: usize)
    ensures
        kind is Int ==> (stands_for(kind, value_type) <==> value_type is Bool || value_type is I8
            || value_type is I16),
        kind is Float ==> (stands_for(kind, value_type) <==> value_type is F32),
        kind is Pointer ==> (stands_for(kind, value_type) <==> value_type is Str),
        kind matches BasicType::Array { sized } ==> (stands_for(kind, value_type) <==> sized
            && value_type is Array),
        kind is Struct || kind is Vector || kind is Unknown ==> !stands_for(kind, value_type),
        stands_for(kind, value_type) ==> Value::of_basic(
            value_type,
            value_of(kind, id, false),
        ).shape() == shape_of(kind, value_type),
        shape_of(kind, value_type).value_type == value_type,
        shape_of(kind, value_type).kind == Some(kind),
        !shape_of(kind, value_type).constant,
{
}

/// Numbers of one kind, and pointers whose type is told apart, have one type of LLVM. Of arrays,
/// structs and vectors it is not known which they have.
pub proof fn types_told_apart(kind: BasicType)
    ensures
        definite(kind) <==> kind is Int || kind is Float || (kind is Pointer && kind
            != BasicType::Pointer { target: Target::Unlisted }),
{
}

/// The names of types are those that they are written with.
pub proof fn type_names()
    ensures
        ValueType::Void.spec_name() == "Void"@,
        ValueType::Bool.spec_name() == "Bool"@,
        ValueType::I8.spec_name() == "I8"@,
        ValueType::I16.spec_name() == "I16"@,
        ValueType::F32.spec_name() == "F32"@,
        ValueType::Str.spec_name() == "Str"@,
        ValueType::Array.spec_name() == "Array"@,
{
}

} // verus!
