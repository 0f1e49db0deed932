[package]
name = "annessaia"
version = "0.1.0"
edition = "2021"
publish = false

[dependencies]
anyhow = "1"
arboard = { version = "3", default-features = false }
axum = { version = "0.7", features = ["ws"] }
base64 = "=0.22.1"
bcrypt = "=0.15.1"
egui = { version = "0.29", default-features = false, features = ["default_fonts"] }
futures = "0.3"
image = { version = "0.25", default-features = false, features = ["png", "jpeg", "gif", "bmp"] }
rand = "=0.8.8"
reqwest = { version = "0.12", default-features = false }
sha2 = "=0.10.9"
tokio = { version = "1", features = ["full"] }
tokio-tungstenite = "0.24"
tower-http = { version = "0.6", features = ["cors", "fs"] }
ureq = { version = "2", default-features = false }
wasmtime = { version = "27", default-features = false, features = ["cranelift", "runtime"] }
zip = { version = "=2.6.1", default-features = false, features = ["deflate"] }
rfd = { version = "0.15", default-features = false, features = ["xdg-portal", "tokio"] }
rodio = { version = "0.21", default-features = false, features = ["playback", "wav"] }
