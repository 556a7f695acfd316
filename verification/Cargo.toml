[package]
name = "python_codegen"
version = "0.1.0"
edition = "2021"
publish = false

[dependencies]
either = "=1.19.0"
inkwell = { version = "=0.2.0", default-features = false, features = ["llvm14-0", "no-libffi-linking"] }
llvm-sys = { version = "=140.1.3", features = ["disable-alltargets-init", "prefer-dynamic"] }
