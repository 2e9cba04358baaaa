[package]
name = "fontsync"
version = "0.1.0"
edition = "2021"
publish = false

[dependencies]
sha2 = "=0.11.0"
hex = "=0.4.3"
anyhow = "=1.0.104"
clap = { version = "=4.6.7", features = ["derive"] }
env_logger = "=0.11.11"
log = "*"
serde = { version = "*", features = ["derive"] }
serde_json = "*"
tokio = { version = "=1.53.2", features = ["rt-multi-thread", "macros", "fs", "io-util", "signal", "sync", "time", "net"] }
walkdir = "=2.5.0"
dirs = "=7.0.0"
notify = "=8.2.0"
futures = "=0.3.34"
reqwest = { version = "=0.13.5", default-features = false, features = ["json", "multipart"] }
tokio-tungstenite = "=0.30.0"
warp = { version = "=0.4.3", features = ["server", "multipart"] }
bytes = "=1.12.1"
dialoguer = "=0.12.0"
windows-sys = { version = "*", features = ["Win32_Foundation", "Win32_Graphics_Gdi", "Win32_System_Registry", "Win32_UI_WindowsAndMessaging"] }
