[package]
name = "website"
version = "0.1.0"
edition = "2021"
publish = false

[dependencies]
leptos = { version = "=0.7.8", features = ["islands", "ssr"] }
leptos_router = { version = "=0.7.8", features = ["ssr"] }
leptos_meta = { version = "=0.7.8", features = ["ssr"] }
leptos_axum = { version = "=0.7.8" }
http = "=1.5.0"
serde = { version = "=1.0.229", features = ["derive"] }
thiserror = "=2.0.21"
tokio = { version = "=1.54.1", features = ["fs", "rt-multi-thread", "macros"] }
tokio-stream = { version = "=0.1.19", features = ["fs"] }
futures = "=0.3.34"
notify = "=6.1.1"
