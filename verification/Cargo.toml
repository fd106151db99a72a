[package]
name = "hayate"
version = "0.1.0"
edition = "2021"
publish = false

[dependencies]
slotmap = "*"
taffy = "*"
parley = "*"
vello = "*"
wgpu = "*"
image = { version = "*", default-features = false, features = ["png", "jpeg", "webp"] }
wasm-bindgen = "*"
wasm-bindgen-futures = "*"
js-sys = "*"
web-sys = { version = "*", features = ["Window", "Document", "Element", "HtmlElement", "HtmlCanvasElement", "CssStyleDeclaration", "Response", "Node"] }
console_error_panic_hook = "*"
console_log = "*"
log = "*"
