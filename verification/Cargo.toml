[package]
name = "viewwitness"
version = "0.1.0"
edition = "2021"
publish = false

[dependencies]
egui = "=0.37.0"
egui_inspection = "=0.37.0"
serde = { version = "=1.0.229", features = ["derive"] }
serde_json = "=1.0.154"
serde_yaml_ng = "=0.10.0"
