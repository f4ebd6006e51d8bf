[package]
name = "x-viz"
version = "0.1.0"
edition = "2021"
publish = false

[dependencies]
chrono = { version = "0.4", default-features = false, features = ["clock", "std"] }
dirs = "*"
sys-locale = "0.3"
serde = { version = "1", features = ["derive"] }
serde_json = "1"
log = "0.4"
thiserror = "*"
fern = "*"
opener = "*"
reqwest = { version = "0.12", default-features = false, features = ["json", "rustls-tls"] }
tokio = { version = "1", features = ["rt-multi-thread", "macros", "time", "sync"] }
windows-sys = { version = "*", features = ["Win32_UI_WindowsAndMessaging"] }
