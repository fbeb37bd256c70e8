[package]
name = "vue_rs"
version = "0.1.0"
edition = "2021"
publish = false

[dependencies]
proc-macro2 = "1"
quote = "1"
syn = { version = "2", features = ["full"] }
wasm-bindgen = "0.2"
js-sys = "0.3"
web-sys = { version = "0.3", features = ["AddEventListenerOptions", "Document", "Element", "Event", "EventTarget", "HtmlInputElement", "HtmlSelectElement", "HtmlTextAreaElement", "KeyboardEvent", "MouseEvent", "Node", "Window", "Text", "Comment", "DocumentFragment", "HtmlElement", "HtmlHeadElement", "CssStyleDeclaration"] }
