[package]
name = "zaprust"
version = "0.1.0"
edition = "2021"
publish = false

[dependencies]
zip = { version = "=2.6.1", default-features = false, features = ["deflate"] }
eframe = { version = "=0.29.1", default-features = false, features = ["default_fonts", "glow", "x11"] }
image = { version = "=0.25.10", default-features = false, features = ["png"] }
ureq = "=2.12.1"
serde = { version = "=1.0.229", features = ["derive"] }
serde_json = "=1.0.154"
ctrlc = { version = "=3.5.2", features = ["termination"] }
directories = "6"
