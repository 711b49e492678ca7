[package]
name = "plaster"
version = "0.1.0"
edition = "2021"
publish = false

[dependencies]
route-recognizer = "=0.3.1"
wasm-bindgen = "=0.2.129"
js-sys = "=0.3.106"
web-sys = { version = "=0.3.106", features = ["Window", "Document", "Element", "Node", "Text", "NodeList", "Event", "EventTarget", "CustomEvent", "CustomEventInit", "History", "Location", "HtmlInputElement", "HtmlTextAreaElement", "HtmlSelectElement", "FileList", "MouseEvent", "KeyboardEvent", "InputEvent", "FocusEvent", "PointerEvent", "DragEvent"] }
wasm-bindgen-futures = "=0.4.79"
log = "=0.4.34"
serde = { version = "=1.0.229", features = ["derive"] }
serde_json = "*"
