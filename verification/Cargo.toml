[package]
name = "glm_evoke"
version = "0.1.0"
edition = "2021"
publish = false

[dependencies]
async-nats = "0.38"
async-trait = "0.1"
hex = "0.4"
libc = "0.2"
safetensors = "0.4"
serde = { version = "1", features = ["derive"] }
serde_json = "1"
sha2 = "0.10"
thiserror = "1"
tokio = { version = "1", features = ["fs", "macros", "rt", "rt-multi-thread", "sync"] }
tracing = "0.1"
