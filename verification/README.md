# python_codegen

Generates LLVM code for Python expressions, through inkwell, and proves with Verus that it does.

`CodeGen::emit_expr` in `src/codegen/cgexpr.rs` generates the code. What it generates is said by
`lower` in `src/lowering.rs`: the steps that are taken, the value that comes of them, or the error
and where it is reported. Some expressions are not handled at all (boolean operators, formatted
strings, operators between a string and a number, and the like). `CodeGen::check_expr` tells
beforehand, and gives what `typing` in `src/typing.rs` says.

What is proved of the code:

- what `check_expr` tells is what comes of `emit_expr` (`src/typing.rs`);
- LLVM takes the code: each step uses values that earlier steps gave, of the types that LLVM asks
  for (`src/soundness.rs`);
- the code computes what the expression means, on a machine with any operations
  (`src/meaning.rs`);
- types of results, scoping, literals, ignored arguments, and where errors are reported
  (`src/laws.rs`);
- division with remainder, integers beside floating point numbers, and comparisons, on a machine
  that computes with numbers as LLVM says (`src/numbers.rs`).

`src/ir.rs` holds the calls into inkwell, each with the contract that is taken for granted. The
types of functions and variables are read from the texts that LLVM prints for them
(`src/type_text.rs`). Functions that take or give what inkwell has no values of, such as metadata,
are not called.

`CodeGen::new` takes the module, with the functions and globals that it is to know, and
`CodeGen::into_module` gives it back with the code. In between it changes through the `CodeGen`
only, which makes the builder itself. `CodeGen::enter_function` starts a block in a function of the
module. `CodeGen::declare_variable` takes up no pointer of another LLVM context. The names that
overloaded functions are mangled to are given to `CodeGen::declare_mangled`. Who holds inkwell's
handles of functions or blocks can still rename or remove those: contracts speak of what nobody
does that to.

`app/` turns errors into ordinary Rust errors.

It is built against LLVM 14, which is linked dynamically.
