[package]
name = "portable_git"
version = "0.1.0"
edition = "2021"
publish = false

[dependencies]
anyhow = "*"
clap = { version = "*", features = ["derive"] }
env_logger = "*"
futures-lite = "*"
gitoxide-core = "=0.62.0"
gix = "=0.88.0"
gix-features = { version = "=0.50.0", features = ["progress"] }
once_cell = "*"
prodash = { version = "=31.0.1", features = ["render-line", "render-line-crossterm", "render-line-autoconfigure", "progress-tree"] }
terminal_size = "*"
tracing = "*"
tracing-forest = "*"
tracing-subscriber = "*"
walkdir = "*"
