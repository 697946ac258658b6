[package]
name = "netprobe"
version = "0.1.0"
edition = "2021"
publish = false

[dependencies]
pnet = "*"
byteorder = "1"
socket2 = { version = "*", features = ["all"] }
clap = { version = "4", features = ["derive"] }
thiserror = "*"
tracing = "*"
tracing-subscriber = { version = "*", features = ["env-filter"] }
faststr = "*"
