[package]
name = "everything_next"
version = "0.1.0"
edition = "2021"
publish = false

[dependencies]
base64 = "=0.22.1"
serde = { version = "=1.0.229", features = ["derive"] }
serde_json = "=1.0.154"
thiserror = "=2.0.21"
parking_lot = "=0.12.5"
libloading = "=0.8.9"
open = "=5.4.5"
trash = "=5.2.9"
image = { version = "0.25", default-features = false, features = ["png"] }
windows = { version = "=0.62.2", features = ["Win32_Foundation", "Win32_Graphics_Gdi", "Win32_System_Com", "Win32_UI_Shell"] }
