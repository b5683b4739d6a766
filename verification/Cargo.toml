[package]
name = "liquid_cache_admin"
version = "0.1.0"
edition = "2021"
publish = false

[dependencies]
gloo-net = { version = "*", features = ["http", "json"] }
gloo-timers = { version = "*", features = ["futures"] }
js-sys = "*"
leptos = { version = "*", features = ["csr"] }
leptos_meta = "*"
leptos_router = "*"
send_wrapper = "*"
serde = { version = "*", features = ["derive"] }
serde_json = "*"
urlencoding = "*"
uuid = { version = "*", features = ["v4"] }
web-sys = { version = "*", features = ["AbortController", "AbortSignal", "Document", "Element", "HtmlAnchorElement", "HtmlElement", "Node", "Window"] }
