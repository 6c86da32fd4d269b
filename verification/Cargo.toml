[package]
name = "practice_quiz"
version = "0.1.0"
edition = "2021"
publish = false

[dependencies]
rand = { version = "=0.8.8", features = ["small_rng"] }
regex = "=1.13.1"
serde = { version = "=1.0.229", features = ["derive"] }
serde_json = "=1.0.154"
dioxus = { version = "0.7", features = ["web"] }
dioxus-free-icons = { version = "0.10", features = ["lucide"] }
web-sys = { version = "=0.3.107", features = ["Window", "Storage", "MediaQueryList", "Location", "Navigator", "Clipboard"] }
wasm-bindgen-futures = "=0.4.80"
