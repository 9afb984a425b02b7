[package]
name = "vfs_daemon"
version = "0.1.0"
edition = "2021"
publish = false

[dependencies]
fuser = "=0.18.0"
libc = "=0.2.190"
clap = { version = "=4.6.7", features = ["derive"] }
env_logger = "=0.11.11"
log = "=0.4.34"
tokio = { version = "=1.53.2", features = ["rt-multi-thread", "macros", "sync", "time"] }
tonic = "=0.14.6"
tonic-prost = "*"
prost = "=0.14.4"
http = "=1.5.0"
futures = "=0.3.34"
async-stream = "=0.3.6"
