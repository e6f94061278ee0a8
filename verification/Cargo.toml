[package]
name = "bandsnatch"
version = "0.1.0"
edition = "2021"
publish = false

[dependencies]
serde_json = "1"
soup = "*"
chrono = "0.4"
reqwest = { version = "*", default-features = false, features = ["blocking", "cookies"] }
http = "*"
governor = "*"
nonzero_ext = "*"
pollster = "*"
indicatif = "*"
log = "*"
env_logger = "*"
clap = { version = "4", features = ["derive", "env"] }
shellexpand = "*"
crossbeam-utils = "*"
zip = { version = "*", default-features = false, features = ["deflate"] }
url = "*"
