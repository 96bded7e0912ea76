[package]
name = "cube_sniper"
version = "0.1.0"
edition = "2021"
publish = false

[dependencies]
serde_json = "1"
select = "0.6"
reqwest = { version = "0.12", default-features = false, features = ["blocking"] }
chrono = "0.4"
clap = { version = "4", features = ["derive"] }
