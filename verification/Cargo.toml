[package]
name = "cube_editor"
version = "0.1.0"
edition = "2021"
publish = false

[dependencies]
gltf = { version = "1", default-features = false }
serde = { version = "1", features = ["derive"] }
toml = "*"
notify = "*"
log = "0.4"
thiserror = "*"
