[package]
name = "iphone_bridge"
version = "0.1.0"
edition = "2021"
publish = false

[dependencies]
anyhow = "=1.0.104"
axum = { version = "=0.8.9", default-features = false, features = ["ws", "multipart", "json", "query", "tokio", "http1"] }
axum-server = { version = "=0.8.0", default-features = false, features = ["tls-rustls-no-provider"] }
base64 = "=0.22.1"
bytes = "=1.12.1"
dunce = "=1.0.5"
futures-util = "=0.3.34"
local-ip-address = "=0.6.13"
pem = "=3.0.6"
rcgen = { version = "=0.13.2", default-features = false, features = ["pem", "ring"] }
rustls = { version = "=0.23.46", default-features = false, features = ["ring", "std", "tls12"] }
serde = { version = "=1.0.229", features = ["derive"] }
serde_json = "=1.0.154"
time = { version = "=0.3.55", features = ["local-offset", "formatting", "macros"] }
tokio = { version = "=1.54.1", features = ["full"] }
tokio-util = { version = "=0.7.20", features = ["io"] }
ureq = { version = "=3.1.4", features = ["json"] }
windows-sys = { version = "=0.59.0", features = ["Win32_Foundation", "Win32_Storage_FileSystem", "Win32_System_Threading", "Win32_UI_Input_KeyboardAndMouse", "Win32_UI_Shell", "Win32_UI_WindowsAndMessaging"] }
x509-parser = "=0.16.0"
