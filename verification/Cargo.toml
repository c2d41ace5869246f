[package]
name = "grf"
version = "0.1.0"
edition = "2021"
publish = false

[dependencies]
jsonschema = { version = "=0.58.6", default-features = false }
serde_json = "=1.0.151"
clap = { version = "=4.6.7", features = ["derive"] }
clap_complete = "=4.6.11"
directories = "=6.0.0"
json_pretty = "=0.1.2"
cargo-manifest = "=0.21.0"
toml = "=1.1.7"
generic_robot_framework = "=0.1.3"
