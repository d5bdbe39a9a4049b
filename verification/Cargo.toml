[package]
name = "dyparser"
version = "0.1.0"
edition = "2021"
publish = false

[dependencies]
directories = "=5.0.1"
wasmtime = { version = "=44.0.3", default-features = false, features = ["runtime", "component-model", "cranelift", "std"] }
