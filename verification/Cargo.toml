[package]
name = "orienteering"
version = "0.1.0"
edition = "2021"
publish = false

[dependencies]
getrandom = "=0.2.17"
oorandom = "=11.1.5"
decorum = "=0.3.1"
num-traits = "=0.2.19"
rand = "=0.7.3"
serde = { version = "=1.0.229", features = ["derive"] }
serde_yaml = "=0.9.34"
csv = "=1.4.0"
glob = "=0.3.4"
indicatif = "=0.17.11"
osmpbfreader = "=0.16.1"
protobuf = "=2.28.0"
tera = "=1.20.1"
