[package]
name = "trieve_cli"
version = "0.1.0"
edition = "2021"
publish = false

[dependencies]
clap = { version = "*", features = ["derive", "env"] }
confy = "*"
inquire = "*"
open = "*"
serde = { version = "*", features = ["derive"] }
tabled = "*"
tokio = { version = "*", features = ["full"] }
trieve-client = "*"
uuid = "*"
