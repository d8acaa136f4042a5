[package]
name = "tetris"
version = "0.1.0"
edition = "2021"
publish = false

[dependencies]
wasm-bindgen = "0.2"
js-sys = "0.3"
web-sys = { version = "0.3", default-features = false, features = ["Window", "Document", "Element", "HtmlCanvasElement", "CanvasRenderingContext2d", "CanvasGradient", "console"] }
