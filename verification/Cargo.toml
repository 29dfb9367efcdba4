[package]
name = "simple_html_template"
version = "0.1.0"
edition = "2021"
publish = false

[dependencies]
htmlescape = "*"
wasm-bindgen = "*"
serde-wasm-bindgen = "*"
web-sys = { version = "*", features = ["Window", "Document", "DocumentFragment", "Element", "Node", "HtmlTemplateElement", "HtmlElement"] }
