[package]
name = "cairo_stack"
version = "0.1.0"
edition = "2021"
publish = false

[dependencies]
bincode = { version = "=2.0.1", default-features = false, features = ["std", "serde"] }
cairo-lang-casm = { version = "=2.21.0", default-features = false }
cairo-lang-sierra = { version = "=2.21.0", default-features = false }
cairo-lang-sierra-ap-change = { version = "=2.21.0", default-features = false }
cairo-lang-sierra-gas = { version = "=2.21.0", default-features = false }
cairo-lang-sierra-to-casm = { version = "=2.21.0", default-features = false }
cairo-lang-sierra-type-size = { version = "=2.21.0", default-features = false }
cairo-lang-utils = { version = "=2.21.0", default-features = false }
cairo-vm = { version = "=3.2.0", features = ["cairo-1-hints"] }
itertools = "=0.11.0"
serde = { version = "=1.0.229", features = ["derive"] }
thiserror-no-std = { version = "=2.0.2", features = ["std"] }
