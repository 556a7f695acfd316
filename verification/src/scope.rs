//! What is in scope where an expression stands: variables, and the symbols of functions.
use crate::ir::{slot_defined, Signature, Slot, Step};
use crate::value::ValueType;
use vstd::prelude::*;

verus! {

/// A variable: the type of its value and where the value is kept.
#[derive(Clone, Copy, Debug, PartialEq, Eq, Structural)]
pub struct Variable {
    pub value_type: ValueType,
    pub slot: Slot,
}

/// The names that the name of a function is mangled to, one for each type that the first argument
/// of a call can have. Without an argument it is `for_void`.
#[derive(Debug)]
pub struct MangledNames {
    pub for_void: String,
    pub for_bool: String,
    pub for_i8: String,
    pub for_i16: String,
    pub for_f32: String,
    pub for_str: String,
    pub for_array: String,
}

/// What is in scope, for contracts.
pub struct Scope {
    /// The function whose body the code goes to; none at the top level.
    pub function: Option<Seq<char>>,
    /// The variables by the function that they are local to, or none for globals, and their name.
    pub variables: Map<(Option<Seq<char>>, Seq<char>), Variable>,
    /// The mangled names by the function's name and the type of the first argument.
    pub mangled: Map<(Seq<char>, ValueType), Seq<char>>,
    /// The functions that can be called, by their symbols.
    pub functions: Map<Seq<char>, Signature>,
    /// Whether there is a block that instructions go to.
    pub positioned: bool,
}

impl Scope {
    /// The variable that `name` means: a local of the function, else a global.
    pub open spec fn load(self, name: Seq<char>) -> Option<Variable> {
        let local = (self.function, name);
        let global = (None::<Seq<char>>, name);
        if self.variables.contains_key(local) {
            Some(self.variables[local])
        } else if self.variables.contains_key(global) {
            Some(self.variables[global])
        } else {
            None
        }
    }

    /// The symbol of the function that a call of `name` means: the function of that name, else
    /// the one that the name is mangled to for the first argument.
    pub open spec fn resolve(self, name: Seq<char>, first_argument: ValueType) -> Option<
        Seq<char>,
    > {
        let overload = (name, first_argument);
        if self.functions.contains_key(name) {
            Some(name)
        } else if self.mangled.contains_key(overload) && self.functions.contains_key(
            self.mangled[overload],
        ) {
            Some(self.mangled[overload])
        } else {
            None
        }
    }
}

/// Whether all variables in scope are kept in places that `steps` took up.
pub open spec fn variables_defined(scope: Scope, steps: Seq<Step>) -> bool {
    forall|key: (Option<Seq<char>>, Seq<char>)|
        #[trigger] scope.variables.contains_key(key) ==> slot_defined(
            steps,
            scope.variables[key].slot,
        )
}

/// The text of an optional string.
pub open spec fn optional_text(text: Option<String>) -> Option<Seq<char>> {
    match text {
        Some(text) => Some(text@),
        None => None,
    }
}

/// A variable that was declared: a local of a function, or else a global.
#[derive(Debug)]
pub struct Declaration {
    pub function: Option<String>,
    pub name: String,
    pub variable: Variable,
}

impl Declaration {
    /// Whether this declares `name` for `function`.
    pub open spec fn declares(self, function: Option<Seq<char>>, name: Seq<char>) -> bool {
        optional_text(self.function) == function && self.name@ == name
    }
}

/// The last of `declarations` that declares `name` for `function`.
pub open spec fn last_declared(
    declarations: Seq<Declaration>,
    function: Option<Seq<char>>,
    name: Seq<char>,
) -> Option<Variable>
    decreases declarations.len(),
{
    if declarations.len() == 0 {
        None
    } else if declarations.last().declares(function, name) {
        Some(declarations.last().variable)
    } else {
        last_declared(declarations.drop_last(), function, name)
    }
}

/// The variables that were declared; a later declaration of a name replaces an earlier one.
#[derive(Debug)]
pub struct Variables {
    declarations: Vec<Declaration>,
}

impl View for Variables {
    type V = Map<(Option<Seq<char>>, Seq<char>), Variable>;

    closed spec fn view(&self) -> Self::V {
        Map::new(
            |key: (Option<Seq<char>>, Seq<char>)|
                last_declared(self.declarations@, key.0, key.1) is Some,
            |key: (Option<Seq<char>>, Seq<char>)|
                last_declared(self.declarations@, key.0, key.1)->0,
        )
    }
}

impl Variables {
    /// No variables.
    pub fn new() -> (r: Self)
        ensures
            r@ == Map::<(Option<Seq<char>>, Seq<char>), Variable>::empty(),
    {
        let r = Variables { declarations: Vec::new() };
        assert(r@ =~= Map::empty());
        r
    }

    /// Declares `name` as a local of `function`, or as a global.
    pub fn declare(&mut self, function: Option<String>, name: String, variable: Variable)
        ensures
            final(self)@ == old(self)@.insert((optional_text(function), name@), variable),
    {
        let ghost before = self.declarations@;
        let declaration = Declaration { function, name, variable };
        self.declarations.push(declaration);
        proof {
            let after = self.declarations@;
            assert(after.last() == declaration);
            assert(after.drop_last() =~= before);
            assert(self@ =~= old(self)@.insert((optional_text(function), name@), variable));
        }
    }

    /// The variable `name` of `function`, or the global of that name.
    pub fn load(&self, function: &Option<String>, name: &String) -> (r: Option<Variable>)
        ensures
            (match r {
                Some(variable) => {
                    &&& self@.contains_key((optional_text(*function), name@))
                    &&& self@[(optional_text(*function), name@)] == variable
                },
                None => !self@.contains_key((optional_text(*function), name@)),
            }),
    {
        let mut i: usize = self.declarations.len();
        proof {
            assert(self.declarations@.take(i as int) =~= self.declarations@);
        }
        while i > 0
            invariant
                i <= self.declarations.len(),
                last_declared(self.declarations@, optional_text(*function), name@)
                    == last_declared(
                    self.declarations@.take(i as int),
                    optional_text(*function),
                    name@,
                ),
            decreases i,
        {
            proof {
                let prefix = self.declarations@.take(i as int);
                assert(prefix.last() == self.declarations@[i - 1]);
                assert(prefix.drop_last() =~= self.declarations@.take(i - 1));
            }
            i = i - 1;
            let declaration = &self.declarations[i];
            let same_function = match (&declaration.function, function) {
                (Some(one), Some(other)) => *one == *other,
                (None, None) => true,
                _ => false,
            };
            if same_function && declaration.name == *name {
                return Some(declaration.variable);
            }
        }
        None
    }
}

impl MangledNames {
    /// The mangled name for a first argument of type `argument`.
    pub open spec fn spec_name(self, argument: ValueType) -> Seq<char> {
        match argument {
            ValueType::Void => self.for_void@,
            ValueType::Bool => self.for_bool@,
            ValueType::I8 => self.for_i8@,
            ValueType::I16 => self.for_i16@,
            ValueType::F32 => self.for_f32@,
            ValueType::Str => self.for_str@,
            ValueType::Array => self.for_array@,
        }
    }

    /// These names as those of the function `name`.
    pub open spec fn for_function(self, name: Seq<char>) -> Map<(Seq<char>, ValueType), Seq<char>> {
        Map::new(
            |key: (Seq<char>, ValueType)| key.0 == name,
            |key: (Seq<char>, ValueType)| self.spec_name(key.1),
        )
    }

    /// The mangled name for a first argument of type `argument`.
    pub fn name(&self, argument: ValueType) -> (r: &String)
        ensures
            r@ == self.spec_name(argument),
    {
        match argument {
            ValueType::Void => &self.for_void,
            ValueType::Bool => &self.for_bool,
            ValueType::I8 => &self.for_i8,
            ValueType::I16 => &self.for_i16,
            ValueType::F32 => &self.for_f32,
            ValueType::Str => &self.for_str,
            ValueType::Array => &self.for_array,
        }
    }
}

/// The mangled names of one function.
#[derive(Debug)]
pub struct Overloads {
    pub name: String,
    pub names: MangledNames,
}

/// The mangled name that the last of `overloads` for `name` gives.
pub open spec fn last_mangled(
    overloads: Seq<Overloads>,
    name: Seq<char>,
    argument: ValueType,
) -> Option<Seq<char>>
    decreases overloads.len(),
{
    if overloads.len() == 0 {
        None
    } else if overloads.last().name@ == name {
        Some(overloads.last().names.spec_name(argument))
    } else {
        last_mangled(overloads.drop_last(), name, argument)
    }
}

/// The mangled names of functions; later ones for a function replace earlier ones.
#[derive(Debug)]
pub struct Mangler {
    overloads: Vec<Overloads>,
}

impl View for Mangler {
    type V = Map<(Seq<char>, ValueType), Seq<char>>;

    closed spec fn view(&self) -> Self::V {
        Map::new(
            |key: (Seq<char>, ValueType)| last_mangled(self.overloads@, key.0, key.1) is Some,
            |key: (Seq<char>, ValueType)| last_mangled(self.overloads@, key.0, key.1)->0,
        )
    }
}

impl Mangler {
    /// No mangled names.
    pub fn new() -> (r: Self)
        ensures
            r@ == Map::<(Seq<char>, ValueType), Seq<char>>::empty(),
    {
        let r = Mangler { overloads: Vec::new() };
        assert(r@ =~= Map::empty());
        r
    }

    /// Sets the names that `name` is mangled to.
    pub fn declare(&mut self, name: String, names: MangledNames)
        ensures
            final(self)@ == old(self)@.union_prefer_right(names.for_function(name@)),
    {
        let ghost before = self.overloads@;
        let overloads = Overloads { name, names };
        self.overloads.push(overloads);
        proof {
            let after = self.overloads@;
            assert(after.last() == overloads);
            assert(after.drop_last() =~= before);
            assert(self@ =~= old(self)@.union_prefer_right(names.for_function(name@)));
        }
    }

    /// The name that `name` is mangled to for a first argument of type `argument`.
    pub fn get_mangled_name(&self, name: &String, argument: ValueType) -> (r: Option<&String>)
        ensures
            (match r {
                Some(symbol) => {
                    &&& self@.contains_key((name@, argument))
                    &&& self@[(name@, argument)] == symbol@
                },
                None => !self@.contains_key((name@, argument)),
            }),
    {
        let mut i: usize = self.overloads.len();
        proof {
            assert(self.overloads@.take(i as int) =~= self.overloads@);
        }
        while i > 0
            invariant
                i <= self.overloads.len(),
                last_mangled(self.overloads@, name@, argument) == last_mangled(
                    self.overloads@.take(i as int),
                    name@,
                    argument,
                ),
            decreases i,
        {
            proof {
                let prefix = self.overloads@.take(i as int);
                assert(prefix.last() == self.overloads@[i - 1]);
                assert(prefix.drop_last() =~= self.overloads@.take(i - 1));
            }
            i = i - 1;
            if self.overloads[i].name == *name {
                return Some(self.overloads[i].names.name(argument));
            }
        }
        None
    }
}

/// An optional string has a text if there is a string, which is its own.
pub proof fn optional_texts(text: String)
    ensures
        optional_text(Some(text)) == Some(text@),
        optional_text(None) == None::<Seq<char>>,
{
}

} // verus!
