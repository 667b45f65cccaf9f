[package]
name = "bibr"
version = "0.1.0"
edition = "2021"
publish = false

[dependencies]
biblatex = "*"
nucleo-matcher = "*"
chrono = "*"
which = "*"
clap = { version = "*", features = ["derive"] }
serde = { version = "*", features = ["derive"] }
toml = "*"
directories = "*"
tokio = { version = "*", features = ["rt-multi-thread", "macros", "process", "fs", "time", "sync"] }
arboard = { version = "*", default-features = false }
notify = "*"
crossterm = "*"
ratatui = "*"
shellexpand = "*"
anyhow = "*"
thiserror = "*"

[dev-dependencies]
tempfile = "*"
