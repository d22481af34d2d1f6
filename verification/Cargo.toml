[package]
name = "yew_chart"
version = "0.1.0"
edition = "2021"
publish = false

[dependencies]
chrono = "0.4"
gloo-events = "0.2"
gloo-utils = "0.2"
wasm-bindgen = "0.2"
web-sys = { version = "0.3", features = ["DomRect", "Element", "Node", "SvgElement"] }
yew = "0.21"
