[package]
name = "agent_bridle_core"
version = "0.8.0"
edition = "2021"
publish = false

[dependencies]
agent-mesh-protocol = "=0.8.3"
content-addressable = "=0.1.3"
ed25519-dalek = "=2.2.0"
serde = { version = "=1.0.229", features = ["derive"] }
serde_json = "=1.0.154"
toml = "=1.1.8"
anyhow = "=1.0.104"
rustix = { version = "=1.1.6", features = ["fs", "process"] }
async-trait = "=0.1.92"
