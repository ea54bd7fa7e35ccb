[package]
name = "html2pdf_api"
version = "0.1.0"
edition = "2021"
publish = false

[dependencies]
url = "=2.5.8"
urlencoding = "=2.1.3"
headless_chrome = "=0.9.0"
tokio = { version = "=1.53.2", features = ["rt-multi-thread", "time", "macros", "sync"] }
log = "=0.4.34"
serde = { version = "=1.0.229", features = ["derive"] }
serde_json = "=1.0.151"
thiserror = "=2.0.21"
dotenvy = "=0.15.7"
