[package]
name = "dufs_browser"
version = "0.1.0"
edition = "2021"
publish = false

[dependencies]
console_error_panic_hook = "*"
gloo-net = { version = "*", default-features = false, features = ["http"] }
leptos = { version = "*", features = ["csr"] }
web-sys = { version = "*", features = ["Window"] }
