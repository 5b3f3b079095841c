[package]
name = "await_values"
version = "0.3.1"
edition = "2021"
publish = false

[dependencies]
atomic-waker = "=1.1.2"
exfiltrate = "=0.4.0"
futures-core = "=0.3.34"
treiber_stack = "=1.2.3"
wasm_lite_std = "=0.1.4"

[dev-dependencies]
exfiltrate_internal = "=0.4.0"
rmp-serde = "=1.3.1"
