[package]
name = "tlsi"
version = "0.1.0"
edition = "2021"
publish = false

[dependencies]
anyhow = "1"
boring = "*"
clap = { version = "4", features = ["derive"] }
histogram = "*"
quiche = "*"
regex = "1"
ring = "0.17"
tokio = { version = "1", features = ["macros", "net", "rt-multi-thread"] }
tokio-boring = "*"
