[package]
name = "loggerheads"
version = "0.1.0"
edition = "2021"
publish = false

[dependencies]
chrono = "0.4"
clap = { version = "4", features = ["derive"] }
futures = "0.3"
libc = "0.2"
netstat2 = "*"
notify = "*"
pnet = "*"
serde = { version = "1", features = ["derive"] }
serde_json = "1"
sysinfo = "0.30"
tokio = { version = "1", features = ["full"] }
toml = "*"
