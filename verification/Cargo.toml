[package]
name = "ewasm_emit"
version = "0.1.0"
edition = "2021"
publish = false

[dependencies]
inkwell = { version = "=0.7.1", default-features = false, features = ["llvm14-0-prefer-dynamic", "target-webassembly"] }
