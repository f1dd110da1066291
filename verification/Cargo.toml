[package]
name = "crust_gather"
version = "0.1.0"
edition = "2021"
publish = false

[dependencies]
anyhow = "*"
duration-string = "*"
futures = "*"
k8s-openapi = { version = "*", features = ["latest"] }
kube = "*"
kube-core = "*"
log = "*"
serde = { version = "*", features = ["derive"] }
serde_yaml = "*"
tokio = { version = "*", features = ["macros", "rt-multi-thread", "time"] }
