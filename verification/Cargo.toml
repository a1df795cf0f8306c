[package]
name = "openbook_simulation"
version = "0.1.0"
edition = "2021"
publish = false

[dependencies]
regex = "=1.13.1"
solana-sdk = "=1.18.26"
solana-program = "=1.18.26"
openbook-v2 = "=0.1.0"
anchor-lang = "=0.27.0"
anchor-spl = "=0.27.0"
tokio = { version = "=1.54.1", features = ["rt-multi-thread", "macros", "sync", "time"] }
clap = { version = "=4.6.7", default-features = false, features = ["std", "derive", "help", "usage", "error-context"] }
serde = { version = "=1.0.229", features = ["derive"] }
serde_json = "=1.0.154"
log = "=0.4.35"
anyhow = "=1.0.104"
chrono = { version = "=0.4.45", default-features = false, features = ["now"] }
rand = "=0.8.8"
itertools = "=0.15.0"
bincode = "=1.3.3"
async-channel = "=2.5.0"
async-trait = "=0.1.92"
bytemuck = "=1.25.2"
