[package]
name = "docker_cli"
version = "0.1.0"
edition = "2021"
publish = false

[dependencies]
anyhow = "1"
clap = { version = "4", features = ["derive"] }
console = "0.15"
ctrlc = "3"
dialoguer = "0.11"
dirs = "5"
git2 = "0.19"
tokio = { version = "1", features = ["macros", "rt-multi-thread"] }
