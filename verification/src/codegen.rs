//! The state of the code generator.
use crate::ast::Location;
use crate::error::LLVMCompileError;
use crate::ir::{
    functions, kept, of_context, pointer_text, signatures, slot_of, slot_step, takes_up,
    value_defined, Declared, Ir, Slot, Step,
};
use crate::lowering::{Emission, Lowering, Outcome};
use crate::scope::{
    optional_text, variables_defined, MangledNames, Mangler, Scope, Variable, Variables,
};
use crate::type_text::{listed_with, pointee_text};
use crate::value::{Value, ValueType};
use inkwell::module::Module;
use inkwell::values::{AnyValueEnum, PointerValue};
use vstd::prelude::*;

mod cgexpr;
mod check;

verus! {

/// Generates code for expressions. The module and the builder belong to it, so that they change
/// through it only.
pub struct CodeGen<'ctx> {
    ir: Ir<'ctx>,
    function: Option<String>,
    variables: Variables,
    mangler: Mangler,
    location: Location,
}

impl<'ctx> CodeGen<'ctx> {
    /// What is in scope.
    pub closed spec fn scope(self) -> Scope {
        Scope {
            function: optional_text(self.function),
            variables: self.variables@,
            mangled: self.mangler@,
            functions: self.ir.functions(),
            positioned: self.ir.positioned(),
        }
    }

    /// The steps taken so far.
    pub closed spec fn steps(self) -> Seq<Step> {
        self.ir.steps()
    }

    /// The place in the source that code was last generated for.
    pub closed spec fn location(self) -> Location {
        self.location
    }

    /// The functions of the module by their names.
    pub closed spec fn declared(self) -> Map<Seq<char>, Declared> {
        self.ir.declared()
    }

    /// The types of pointers by which those are told apart that do not point to numbers.
    pub closed spec fn listed(self) -> Seq<Seq<char>> {
        self.ir.listed()
    }

    /// The block that code goes to: the name of its function, and the name that was asked for it.
    pub closed spec fn block(self) -> Option<(Seq<char>, Seq<char>)> {
        self.ir.block()
    }

    /// Whether `pointer` can be the place of a variable: it is of the same LLVM context as the
    /// module, and its type tells what it points to.
    pub closed spec fn takes_up(self, pointer: PointerValue<'ctx>) -> bool {
        takes_up(self.ir, pointer)
    }

    /// The LLVM values that the steps gave.
    pub closed spec fn values(self) -> Seq<AnyValueEnum<'ctx>> {
        self.ir.values()
    }

    /// Whether each variable has a place in memory that was taken up, the value of each step is
    /// kept, and functions are what was declared.
    pub open spec fn wf(self) -> bool {
        &&& variables_defined(self.scope(), self.steps())
        &&& self.values().len() == self.steps().len() <= usize::MAX
        &&& self.scope().functions == signatures(self.listed(), self.declared())
    }
}

/// Whether `after` is `before` once `lowering` has been carried out, and `result` tells what came
/// of it.
pub open spec fn carried_out<'ctx, 'e, T>(
    before: CodeGen<'ctx>,
    after: CodeGen<'ctx>,
    lowering: Lowering<T>,
    result: Result<T, LLVMCompileError<'e>>,
) -> bool {
    &&& after.wf()
    &&& after.scope() == before.scope()
    &&& after.declared() == before.declared()
    &&& after.listed() == before.listed()
    &&& after.block() == before.block()
    &&& after.location() == lowering.location
    &&& after.steps() == before.steps() + lowering.steps
    &&& kept(before.values(), after.values())
    &&& match lowering.outcome {
        Outcome::Done(value) => result == Ok::<T, LLVMCompileError<'e>>(value),
        Outcome::Failed(fault) => {
            &&& result matches Err(error)
            &&& error.location == lowering.location
            &&& error.fault() == fault
        },
        Outcome::Unsupported => false,
    }
}

/// Whether `after` is `before` once the steps of `emission` have been taken, and `result` tells
/// what came of them.
pub open spec fn emitted<'ctx, 'e, T>(
    before: CodeGen<'ctx>,
    after: CodeGen<'ctx>,
    emission: Emission<T>,
    result: Result<T, LLVMCompileError<'e>>,
) -> bool {
    carried_out(
        before,
        after,
        Lowering {
            location: before.location(),
            steps: emission.steps,
            outcome: emission.outcome,
        },
        result,
    )
}

impl<'ctx> CodeGen<'ctx> {
    /// A code generator that puts code into `module`, at first at the top level and into no block.
    pub fn new(module: Module<'ctx>) -> (r: Self)
        ensures
            r.wf(),
            r.steps() == Seq::<Step>::empty(),
            r.declared() == functions(module),
            r.listed() == Seq::<Seq<char>>::empty(),
            r.block() is None,
            r.scope() == (Scope {
                function: None,
                variables: Map::empty(),
                mangled: Map::empty(),
                functions: signatures(Seq::empty(), functions(module)),
                positioned: false,
            }),
            r.location() == (Location { row: 0, column: 0 }),
            forall|pointer: PointerValue<'ctx>|
                #[trigger] r.takes_up(pointer) == (of_context(module, pointer) && pointer_text(
                    pointer,
                ).len() > 0 && pointer_text(pointer).last() == '*'),
    {
        CodeGen {
            ir: Ir::new(module),
            function: None,
            variables: Variables::new(),
            mangler: Mangler::new(),
            location: Location { row: 0, column: 0 },
        }
    }

    /// The module with the code that was generated.
    pub fn into_module(self) -> (r: Module<'ctx>)
        ensures
            functions(r) == self.declared(),
    {
        self.ir.into_module()
    }

    /// Goes to the top level, with no function. Code still goes to the same block.
    pub fn leave_function(&mut self)
        requires
            old(self).wf(),
        ensures
            final(self).wf(),
            final(self).steps() == old(self).steps(),
            final(self).values() == old(self).values(),
            final(self).location() == old(self).location(),
            final(self).declared() == old(self).declared(),
            final(self).listed() == old(self).listed(),
            final(self).block() == old(self).block(),
            final(self).scope() == (Scope { function: None, ..old(self).scope() }),
    {
        self.function = None;
    }

    /// Goes to the body of the function `name`, to a new block at its end for which the name
    /// `block` is asked. Returns whether the module has such a function; else nothing is done.
    pub fn enter_function(&mut self, name: String, block: &str) -> (r: bool)
        requires
            old(self).wf(),
        ensures
            r == old(self).scope().functions.contains_key(name@),
            !r ==> *final(self) == *old(self),
            r ==> {
                &&& final(self).wf()
                &&& final(self).steps() == old(self).steps()
                &&& final(self).values() == old(self).values()
                &&& final(self).location() == old(self).location()
                &&& final(self).declared() == old(self).declared()
                &&& final(self).listed() == old(self).listed()
                &&& final(self).block() == Some((name@, block@))
                &&& final(self).scope() == (Scope {
                    function: Some(name@),
                    positioned: true,
                    ..old(self).scope()
                })
            },
    {
        if !self.ir.has_function(name.as_str()) {
            return false;
        }
        self.ir.append_block(name.as_str(), block);
        self.function = Some(name);
        true
    }

    /// Declares a variable that is kept where `pointer` points to: a local of `function`, or a
    /// global. Returns the place in memory. Nothing is done if the pointer is of another LLVM
    /// context than the module, or does not tell what it points to.
    pub fn declare_variable(
        &mut self,
        function: Option<String>,
        name: String,
        value_type: ValueType,
        pointer: PointerValue<'ctx>,
    ) -> (r: Option<Slot>)
        requires
            old(self).wf(),
        ensures
            (match r {
                Some(slot) => {
                    let pointee = pointee_text(pointer_text(pointer));
                    let listed = listed_with(old(self).listed(), pointee);
                    &&& old(self).takes_up(pointer)
                    &&& final(self).wf()
                    &&& slot == slot_of(old(self).steps().len() as usize, listed, pointer)
                    &&& kept(old(self).values(), final(self).values())
                    &&& final(self).steps() == old(self).steps().push(slot_step(slot))
                    &&& final(self).location() == old(self).location()
                    &&& final(self).declared() == old(self).declared()
                    &&& final(self).listed() == listed
                    &&& final(self).block() == old(self).block()
                    &&& final(self).scope() == (Scope {
                        variables: old(self).scope().variables.insert(
                            (optional_text(function), name@),
                            Variable { value_type, slot },
                        ),
                        functions: signatures(listed, old(self).declared()),
                        ..old(self).scope()
                    })
                },
                None => !old(self).takes_up(pointer) && *final(self) == *old(self),
            }),
    {
        match self.ir.slot(pointer) {
            Some(slot) => {
                self.variables.declare(function, name, Variable { value_type, slot });
                Some(slot)
            },
            None => None,
        }
    }

    /// The LLVM value that stands for `value`; there is none for `Void`.
    pub fn llvm_value(&self, value: Value) -> (r: Option<&AnyValueEnum<'ctx>>)
        requires
            self.wf(),
            value_defined(self.steps(), value),
        ensures
            (match (value.basic(), r) {
                (Some(basic), Some(r)) => *r == self.values()[basic.spec_id() as int],
                (None, None) => true,
                _ => false,
            }),
    {
        match value.to_basic_value() {
            Some(basic) => Some(self.ir.llvm_value(basic.id())),
            None => None,
        }
    }

    /// Sets the names that the name of a function is mangled to.
    pub fn declare_mangled(&mut self, name: String, names: MangledNames)
        requires
            old(self).wf(),
        ensures
            final(self).wf(),
            final(self).steps() == old(self).steps(),
            final(self).values() == old(self).values(),
            final(self).location() == old(self).location(),
            final(self).declared() == old(self).declared(),
            final(self).listed() == old(self).listed(),
            final(self).block() == old(self).block(),
            final(self).scope() == (Scope {
                mangled: old(self).scope().mangled.union_prefer_right(names.for_function(name@)),
                ..old(self).scope()
            }),
    {
        self.mangler.declare(name, names);
    }
}

} // verus!
