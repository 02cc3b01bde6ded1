[package]
name = "zprize"
version = "0.1.0"
edition = "2021"
publish = false

[dependencies]
anyhow = "=1.0.104"
k256 = { version = "=0.13.4", features = ["ecdsa"] }
num-bigint = "=0.4.8"
rand = "=0.8.8"
rayon = "=1.12.0"
serde = { version = "=1.0.229", features = ["derive"] }
serde_cbor = "=0.11.2"
serde_json = "=1.0.154"
sha3 = "=0.10.9"
snarkvm-algorithms = { version = "=0.16.19", features = ["serial"] }
snarkvm-circuit = "=0.16.19"
snarkvm-circuit-environment = "=0.16.19"
snarkvm-console = "=0.16.19"
snarkvm-console-network = "=0.16.19"
snarkvm-curves = "=0.16.19"
snarkvm-fields = "=0.16.19"
snarkvm-utilities = "=0.16.19"
tempfile = "=3.27.0"
