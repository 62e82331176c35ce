[package]
name = "lxc_tool"
version = "0.1.0"
edition = "2021"
publish = false

[dependencies]
anyhow = "*"
clap = { version = "*", features = ["derive"] }
futures-util = "*"
indicatif = "*"
nix = { version = "*", features = ["user", "fs"] }
pwd = "*"
reqwest = { version = "*", default-features = false, features = ["rustls-tls", "stream"] }
serde = { version = "*", features = ["derive"] }
serde_yaml = "*"
slog = "*"
slog-envlogger = "*"
slog-scope = "*"
slog-syslog = "*"
tempfile = "*"
tokio = { version = "*", features = ["macros", "rt-multi-thread"] }
url = "*"
wait-timeout = "*"
walkdir = "*"
