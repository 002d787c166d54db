[package]
name = "keyed_index_tracker"
version = "0.1.0"
edition = "2021"
publish = false

[dependencies]
console_error_panic_hook = "0.1"
leptos = { version = "0.4", features = ["hydrate"] }
leptos_meta = { version = "0.4", features = ["hydrate"] }
leptos_router = { version = "0.4", features = ["hydrate"] }
tracing = "0.1"
tracing-subscriber = "0.3"
tracing-subscriber-wasm = "0.1"
wasm-bindgen = "0.2"
