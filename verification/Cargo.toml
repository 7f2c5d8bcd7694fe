[package]
name = "neocities_deploy"
version = "0.1.0"
edition = "2021"
publish = false

[dependencies]
anyhow = "1"
base64 = "0.22"
bytesize = "1"
clap = { version = "4", features = ["derive"] }
directories = "5"
form-data-builder = "*"
ignore = "0.4"
indexmap = { version = "2", features = ["serde"] }
inquire = "0.7"
log = "0.4"
pretty_env_logger = "0.5"
serde = { version = "1", features = ["derive"] }
serde_json = "1"
sha1 = "0.10"
thiserror = "1"
toml = "0.8"
typed-path = "*"
ureq = "2"
url = "2"
