[package]
name = "libvoice"
version = "0.1.0"
edition = "2021"
publish = false

[dependencies]
midly = "=0.5.3"
serde = { version = "=1.0.229", features = ["derive"] }
serde_json = "=1.0.154"
realfft = "=3.5.1"
rustfft = "=6.4.1"
clap = { version = "=4.6.7", features = ["derive"] }
rayon = "=1.12.0"
symphonia = { version = "=0.5.5", features = ["all"] }
tempfile = "=3.27.0"
mime = "=0.3.17"
tokio = { version = "=1.54.1", features = ["full"] }
tracing = "=0.1.44"
tracing-subscriber = { version = "=0.3.23", features = ["env-filter"] }
axum = { version = "=0.7.9", features = ["ws"] }
bytes = "=1.12.1"
futures-util = "=0.3.34"
async-stream = "=0.3.6"
plotters = { version = "=0.3.7", default-features = false, features = ["bitmap_backend", "all_series", "all_elements", "full_palette"] }
image = { version = "=0.25.10", default-features = false, features = ["png"] }
anyhow = "=1.0.104"
url = "=2.5.8"
log = "=0.4.35"
env_logger = "=0.11.11"
crossbeam-channel = "=0.5.17"
parking_lot = "=0.12.5"
wasm-bindgen = "=0.2.130"
serde-wasm-bindgen = "=0.6.5"
