[package]
name = "reactive-state"
version = "0.3.0"
edition = "2021"
publish = false

[dependencies]
js-sys = "0.3"
log = "0.4"
serde = { version = "1", features = ["derive"] }
wasm-bindgen = { version = "0.2", features = ["serde-serialize"] }
web-sys = { version = "0.3", features = ["console"] }
yew = "0.18"
