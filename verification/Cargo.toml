[package]
name = "weaver"
version = "0.1.0"
edition = "2021"
publish = false

[dependencies]
anyhow = "1"
async-trait = "0.1"
blake3 = "1"
bytes = "1"
chacha20poly1305 = "0.11"
clap = { version = "4", default-features = false, features = ["derive", "std", "help", "usage", "error-context"] }
ed25519-dalek = "3"
futures-util = { version = "0.3", default-features = false, features = ["std"] }
getrandom = "0.4"
hex = "0.4"
hpke = "0.14"
iroh = { version = "1", default-features = false, features = ["tls-ring"] }
iroh-relay = { version = "1", default-features = false }
n0-future = "0.3"
netdev = "*"
serde = { version = "1", features = ["derive"] }
serde_json = "1"
swarm-discovery = "0.6"
thiserror = "2"
tokio = { version = "1", features = ["full"] }
tokio-stream = "0.1"
tonic = { version = "0.14", default-features = false, features = ["server"] }
tracing = "0.1"
zeroize = "1"
