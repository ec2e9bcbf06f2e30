[package]
name = "ucal"
version = "0.1.0"
edition = "2021"
publish = false

[dependencies]
anstyle = "*"
clap = { version = "*", features = ["derive"] }
clap_complete = "*"
clap_mangen = "*"
terminal_size = "*"
ratatui = "*"
crossterm = "*"
serde = { version = "*", features = ["derive"] }
deser-hjson = "*"
