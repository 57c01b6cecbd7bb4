[package]
name = "hprof_tui"
version = "0.1.0"
edition = "2021"
publish = false

[dependencies]
jvm-hprof = "*"
hprof-analyzer = "*"
memmap2 = "*"
anyhow = "1"
clap = { version = "4", features = ["derive"] }
crossterm = "0.28"
ratatui = "0.29"
serde_json = "1"
