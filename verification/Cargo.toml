[package]
name = "tickertools"
version = "0.1.0"
edition = "2021"
publish = false

[dependencies]
chrono = "0.4"
clap = { version = "4", features = ["derive"] }
tch = "0.19"
tokio = { version = "1", features = ["macros", "rt-multi-thread"] }
yfinance-rs = "*"
