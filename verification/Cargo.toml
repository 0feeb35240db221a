[package]
name = "pdf_transcribe"
version = "0.1.0"
edition = "2021"
publish = false

[dependencies]
serde_json = "1"
base64 = "0.22"
serde = { version = "1", features = ["derive"] }
reqwest = { version = "0.12", default-features = false, features = ["json", "stream"] }
tokio = { version = "1", features = ["macros", "rt-multi-thread"] }
futures-util = "0.3"
async-stream = "0.3"
clap = { version = "4", features = ["derive"] }
anyhow = "1"
thiserror = "1"
log = "0.4"
env_logger = "0.11"
progress_bar = "1"
pdfium-render = "0.8"
png = "0.17"
