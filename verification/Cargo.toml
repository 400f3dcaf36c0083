[package]
name = "objc_core"
version = "0.1.0"
edition = "2021"
publish = false

[dependencies]
clang = { version = "2.0.0", features = ["runtime", "clang_10_0"] }
libc = "0.2"
malloc_buf = "*"
