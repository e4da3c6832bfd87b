[package]
name = "hbview3"
version = "0.1.0"
edition = "2021"
publish = false

[dependencies]
serde = { version = "1", features = ["derive"] }
serde-wasm-bindgen = "*"
wasm-bindgen = "*"
tokio = { version = "1", features = ["io-std", "macros", "rt-multi-thread"] }
tower-lsp = "*"
tree-sitter = "*"
tree-sitter-c = "*"
tree-sitter-cpp = "*"
eframe = { version = "*", default-features = false }
