[package]
name = "starstream-run"
version = "0.1.0"
edition = "2021"
publish = false

[dependencies]
anyhow = "=1.0.104"
bytes = "=1.12.1"
clap = { version = "4", features = ["derive", "string"] }
console_error_panic_hook = "0.1"
cranelift-codegen = "0.133"
futures = "=0.3.34"
httparse = "=1.10.1"
js-sys = "0.3"
serde_json = "=1.0.154"
sha2 = "=0.10.9"
tokio = { version = "=1.54.1", features = ["io-util", "macros", "net", "rt-multi-thread", "signal", "time"] }
tokio-util = { version = "=0.7.20", features = ["codec"] }
tokio-websockets = { version = "=0.13.3", features = ["server"] }
tracing = "0.1"
tracing-subscriber = { version = "0.3", features = ["env-filter", "fmt"] }
wasi-preview1-component-adapter-provider = "=45.0.1"
wasm-bindgen = "0.2"
wasm-bindgen-futures = "0.4"
wasm-tokio = "=0.8.2"
wasmparser = "=0.251.0"
wasmtime = { version = "=46.0.3", features = ["component-model", "wave"] }
web-sys = { version = "0.3", features = ["console", "Document", "Element", "HtmlElement", "Node", "Window"] }
wit-component = "=0.251.0"
wrpc-transport = "=0.30.0"
wrpc-websockets = "=0.1.0"

[dev-dependencies]
wat = "=1.251.0"
