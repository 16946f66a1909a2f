[package]
name = "zugzwang"
version = "0.1.1"
edition = "2021"
publish = false

[dependencies]
anyhow = "=1.0.104"
base64 = "=0.23.1"
clap = "=4.6.7"
dialoguer = "=0.12.0"
image = { version = "=0.25.10", default-features = false, features = ["jpeg", "png"] }
reqwest = { version = "=0.13.5", features = ["json"] }
serde = { version = "=1.0.229", features = ["derive"] }
shakmaty = "=0.27.3"
tanton = "=1.0.0"
tokio = { version = "=1.54.1", features = ["macros", "rt-multi-thread", "time"] }
xcap = "=0.9.8"
