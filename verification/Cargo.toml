[package]
name = "talkkeeper_audio"
version = "0.1.0"
edition = "2021"
publish = false

[dependencies]
anyhow = "1"
async-trait = "0.1"
bytemuck = "1"
chrono = { version = "0.4", features = ["serde"] }
cpal = "0.15"
dirs = "5"
futures-util = "0.3"
log = "0.4"
once_cell = "1"
reqwest = { version = "0.12", default-features = false, features = ["json", "multipart"] }
rubato = "0.15"
serde = { version = "1", features = ["derive"] }
serde_json = "1"
sha2 = "*"
symphonia = { version = "0.5", features = ["all"] }
tokio = { version = "1", features = ["full"] }
tracing = "0.1"
uuid = { version = "1", features = ["v4"] }
zeroize = "1"
