[package]
name = "paimon"
version = "0.1.0"
edition = "2021"
publish = false

[dependencies]
arrow = { version = "58", default-features = false, features = ["pyarrow"] }
datafusion = { version = "53", default-features = false }
datafusion-ffi = "53"
opendal = { version = "0.55", default-features = false, features = ["services-memory", "services-fs"] }
pyo3 = { version = "0.28", default-features = false, features = ["macros", "abi3-py310"] }
serde = { version = "1", features = ["derive"] }
serde_json = "1"
tokio = { version = "1", features = ["rt", "rt-multi-thread", "time"] }
