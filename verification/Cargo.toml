[package]
name = "infospot"
version = "0.1.0"
edition = "2021"
publish = false

[dependencies]
anyhow = "1"
base64 = "0.22"
chrono = "0.4"
dioxus = { version = "*", features = ["router"] }
dioxus-free-icons = { version = "*", features = ["font-awesome-solid", "font-awesome-brands"] }
dotenv = "0.15"
isocountry = "0.3"
open = "5"
rand = "0.9"
reqwest = { version = "0.12", features = ["json"] }
serde = { version = "1", features = ["derive"] }
serde_json = "1"
tokio = { version = "1", features = ["full"] }
urlencoding = "2"
zip = "2"
