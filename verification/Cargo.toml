[package]
name = "prodlog"
version = "2.6.0"
edition = "2021"
publish = false

[dependencies]
axum = "*"
base64 = "*"
chrono = "*"
clap = { version = "*", features = ["derive"] }
dirs = "*"
html-escape = "*"
libc = "*"
nix = { version = "*", features = ["process", "signal", "term", "fs", "ioctl"] }
r2d2 = "*"
r2d2_sqlite = "*"
rusqlite = { version = "*", features = ["bundled"] }
serde = { version = "*", features = ["derive"] }
serde_json = "*"
similar = "*"
termion = "*"
tokio = { version = "*", features = ["full"] }
urlencoding = "*"
uuid = { version = "*", features = ["v4"] }
whoami = "*"
