[package]
name = "netem_trace"
version = "0.1.0"
edition = "2021"
publish = false

[dependencies]
bandwidth = { version = "=0.3.0", features = ["serde"] }
dyn-clone = "=1.0.20"
human-bandwidth = { version = "=0.1.4", features = ["serde"] }
humantime-serde = "=1.1.1"
itertools = "=0.15.0"
rand = "=0.8.8"
rand_distr = "=0.4.3"
serde = { version = "=1.0.229", features = ["derive"] }
serde_json = "=1.0.154"
statrs = "=0.19.1"
typetag = "=0.2.23"
