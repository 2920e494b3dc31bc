[package]
name = "falcon_bms_control"
version = "0.1.0"
edition = "2021"
publish = false

[dependencies]
seahash = "*"
turbojpeg = "*"
rusty_enet = "*"
log = "*"
env_logger = "*"
figment = { version = "*", features = ["toml"] }
serde = { version = "*", features = ["derive"] }

[dev-dependencies]
rmp = "*"
