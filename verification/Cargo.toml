[package]
name = "gx"
version = "0.1.0"
edition = "2021"
publish = false

[dependencies]
elsa = "=1.11.2"
gix-discover = { version = "=0.57.1", features = ["sha1"] }
glob = "=0.3.4"
log = "=0.4.35"
regex = "=1.13.1"
reqwest = { version = "=0.13.5", default-features = false, features = ["blocking", "json"] }
serde = { version = "=1.0.229", features = ["derive"] }
serde_json = "=1.0.154"
serde-saphyr = "=2.0.0"
thiserror = "=2.0.21"
toml = "=1.1.8"
toml_edit = "=0.25.17"

[dev-dependencies]
tempfile = "=3.27.0"
