[package]
name = "lux_lib"
version = "0.1.0"
edition = "2021"
publish = false

[dependencies]
bytes = "1"
cc = "1"
clap = { version = "4", features = ["derive"] }
eyre = "0.6"
is_executable = "1"
itertools = "0.14"
lazy_static = "1"
path-slash = "0.2"
pathdiff = "0.2"
serde = { version = "1", features = ["derive"] }
serde-value = "0.7"
serde_json = "1"
tempfile = "3"
thiserror = "2"
tokio = { version = "1", features = ["fs", "process", "sync", "io-util"] }
walkdir = "2"
which = "*"
zip = { version = "*", default-features = false, features = ["deflate"] }
