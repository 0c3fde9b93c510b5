[package]
name = "cedar_policy_core"
version = "0.1.0"
edition = "2021"
publish = false

[dependencies]
itertools = "0.10"
miette = "5"
nonempty = "0.8"
serde = { version = "1.0", features = ["derive"] }
serde_json = "1.0"
serde_with = { version = "3", features = ["json"] }
smol_str = "0.2"
thiserror = "1.0"
