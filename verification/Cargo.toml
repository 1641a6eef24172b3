[package]
name = "mdr"
version = "0.1.0"
edition = "2021"
publish = false

[dependencies]
pulldown-cmark = { version = "0.12", default-features = false }
ratatui = "0.29"
crossterm = "0.28"
ratatui-image = "8"
image = { version = "0.25", default-features = false, features = ["png", "jpeg", "gif"] }
clap = { version = "4", features = ["derive"] }
tokio = { version = "1", features = ["full"] }
serde = { version = "1", features = ["derive"] }
toml = "0.8"
thiserror = "1"
notify = "6"
