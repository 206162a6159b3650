[package]
name = "mod_explorer"
version = "0.1.0"
edition = "2021"
publish = false

[dependencies]
url = { version = "=2.5.8", features = ["serde"] }
urlencoding = "=2.1.3"
mime_guess = "=2.0.5"
serde = { version = "=1.0.229", features = ["derive"] }
serde_json = "=1.0.154"
toml = "=0.8.23"
tokio = { version = "=1.54.1", features = ["full"] }
axum = "=0.8.9"
clap = { version = "=4.6.7", features = ["derive"] }
oauth2 = "=5.0.0"
syntect = "=5.3.0"
tower-sessions = "=0.15.0"
tower-sessions-file-store = "=0.3.0"
leptos = { version = "=0.8.23", features = ["ssr"] }
leptos_axum = "=0.8.10"
leptos_meta = "=0.8.7"
leptos_router = "=0.8.17"
reactive_stores = "=0.4.4"
