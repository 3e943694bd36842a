[package]
name = "json_schema_diff"
version = "0.1.0"
edition = "2021"
publish = false

[dependencies]
pathfinding = "4"
schemars = { version = "0.8", default-features = false }
serde = { version = "1", features = ["derive"] }
serde_json = "1"
thiserror = "1"
clap = { version = "4", features = ["derive"] }
