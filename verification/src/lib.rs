//! Code generation for Python expressions: each is lowered to LLVM code, and proved to be.
//!
//! [`lowering`] says which code an expression is lowered to, [`typing`] what can be told before,
//! and [`codegen`] does it. [`forms`] and [`calls`] say step by step what code each form of
//! expression becomes, and [`soundness`], [`meaning`], [`laws`] and [`numbers`] what holds of it.
//! [`texts`] says how types are read that LLVM prints.
pub mod ast;
pub mod calls;
pub mod codegen;
pub mod error;
pub mod forms;
pub mod integer;
pub mod ir;
pub mod laws;
pub mod lowering;
pub mod meaning;
pub mod numbers;
pub mod scope;
pub mod soundness;
pub mod texts;
pub mod type_text;
pub mod typing;
pub mod value;
