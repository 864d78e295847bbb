[package]
name = "mobiletunnel"
version = "0.1.0"
edition = "2021"
publish = false

[dependencies]
bytes = "1"
clap = { version = "4", features = ["derive"] }
daemonize = "0.5"
futures = "0.3"
libc = "0.2"
log = "0.4"
rand = "0.8"
shellwords = "1"
simple_logger = "5"
sysinfo = "0.30"
tokio = { version = "1", features = ["full"] }
tokio-util = { version = "0.7", features = ["codec"] }
