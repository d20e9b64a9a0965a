[package]
name = "gh_projects_web"
version = "0.1.0"
edition = "2021"
publish = false

[dependencies]
pulldown-cmark = { version = "0.12", default-features = false, features = ["html"] }
serde = { version = "1", features = ["derive"] }
serde_json = "1"
js-sys = "0.3"
wasm-bindgen = "0.2"
web-sys = { version = "0.3", features = ["Window", "Storage", "Document", "Element", "HtmlAnchorElement", "Blob", "Url"] }
gloo-net = { version = "0.6", default-features = false, features = ["http", "json"] }
gloo-storage = "0.3"
