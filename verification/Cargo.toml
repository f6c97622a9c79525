[package]
name = "fasthtcacheclean"
version = "0.1.0"
edition = "2021"
publish = false

[dependencies]
clap = { version = "4", features = ["derive"] }
crossbeam = "0.8"
libc = "0.2"
nix = { version = "0.29", features = ["fs"] }
num_cpus = "1"
rand = "0.8"
thiserror = "1"
tracing = "0.1"
tracing-journald = "0.3"
tracing-subscriber = { version = "0.3", features = ["env-filter"] }
