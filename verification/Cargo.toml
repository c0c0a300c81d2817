[package]
name = "gftools_builder"
version = "0.1.0"
edition = "2021"
publish = false

[dependencies]
tempfile = "*"
petgraph = "*"
tokio = { version = "*", features = ["full"] }
futures = "*"
dashmap = "*"
clap = { version = "*", features = ["derive"] }
serde = { version = "*", features = ["derive"] }
serde_json = "*"
serde_yaml_ng = "*"
num_cpus = "*"
log = "*"
env_logger = "*"
