[package]
name = "memo_pill"
version = "1.0.0"
edition = "2021"
publish = false

[dependencies]
time = { version = "=0.3.55", features = ["local-offset", "formatting", "parsing"] }
uuid = { version = "=1.29.0", features = ["v4"] }
serde = { version = "=1.0.229", features = ["derive"] }
serde_json = "=1.0.154"
reqwest = { version = "=0.12.28", default-features = false, features = ["json", "rustls-tls"] }
tokio = { version = "=1.54.1", features = ["time", "rt", "macros"] }
async-trait = "=0.1.92"
rusqlite = { version = "=0.41.1", features = ["bundled"] }
windows-sys = { version = "=0.59.0", features = ["Win32_Foundation", "Win32_System_Threading", "Win32_UI_WindowsAndMessaging"] }
