[package]
name = "tagchat"
version = "0.1.0"
edition = "2021"
publish = false

[dependencies]
clap = { version = "3", features = ["derive"] }
eframe = { version = "0.18", features = ["persistence"] }
egui = { version = "0.18", features = ["serde"] }
futures = "0.3"
serde = { version = "1", features = ["derive"] }
tokio = { version = "1", features = ["rt", "net", "io-util", "sync"] }
