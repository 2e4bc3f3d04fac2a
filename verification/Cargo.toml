[package]
name = "pq_noise"
version = "0.1.0"
edition = "2021"
publish = false

[dependencies]
asynchronous-codec = "=0.7.0"
bytes = "=1.12.1"
clatter = { version = "=2.3.0", default-features = false, features = ["std", "use-chacha20poly1305", "use-sha", "use-rust-crypto-ml-kem"] }
fn-dsa = "=0.3.0"
futures = "=0.3.34"
libp2p-core = "=0.43.2"
libp2p-identity = { version = "=0.2.14", features = ["ed25519", "peerid", "rand"] }
multiaddr = "=0.18.2"
multihash = "=0.19.5"
quick-protobuf = "=0.8.1"
rand = "=0.8.8"
snow = "=0.9.6"
thiserror = "=2.0.21"
tracing = "=0.1.44"
zeroize = "=1.9.1"

[dev-dependencies]
futures_ringbuf = "=0.4.0"
