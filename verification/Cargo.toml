[package]
name = "zki_sieve"
version = "3.0.0"
edition = "2021"
publish = false

[dependencies]
flatbuffers = "=0.5.0"
num-bigint = "=0.3.3"
num-traits = "=0.2.19"
serde = { version = "1", features = ["derive"] }
serde_json = "1"
serde_yaml = "=0.8.26"
structopt = "0.3"
zkinterface = "=1.3.4"

[dev-dependencies]
itertools = "=0.10.5"
