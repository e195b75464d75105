[package]
name = "kubo"
version = "0.1.0"
edition = "2021"
publish = false

[dependencies]
fs_extra = "*"
toml = "*"
toml_edit = "*"
notify = "*"
log = "*"
env_logger = "*"
fd-lock = "*"
clap = { version = "*", features = ["derive"] }
clap_complete = "*"
