[package]
name = "cohort_stats"
version = "0.1.0"
edition = "2021"
publish = false

[dependencies]
eng-wasm = "=0.1.3"
eng-wasm-derive = "=0.1.3"
linregress = "=0.4.4"
rusty-machine = "=0.5.4"
serde = { version = "=1.0.229", features = ["derive"] }

[dev-dependencies]
statistical = "=1.0.0"
