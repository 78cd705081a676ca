[package]
name = "quantum-core"
version = "0.1.0"
edition = "2021"
publish = false

[dependencies]
rapier3d = "0.14"
serde_json = "1"
thiserror = "1"
