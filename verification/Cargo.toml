[package]
name = "floorplan"
version = "0.1.0"
edition = "2021"
publish = false

[dependencies]
petgraph = "*"
serde_json = "*"
serde_yaml = "*"
jsonpath_lib = "*"
kube = "*"
k8s-openapi = { version = "*", features = ["latest"] }
tokio = { version = "*", features = ["rt-multi-thread", "macros", "time"] }
clap = { version = "*", features = ["derive"] }
