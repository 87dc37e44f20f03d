[package]
name = "roulette_sim"
version = "0.1.0"
edition = "2021"
publish = false

[dependencies]
rand = "=0.10.3"
itertools = "=0.15.0"
serde = { version = "=1.0.229", features = ["derive"] }
serde_json = "=1.0.151"
actix-web = "=4.15.0"
tokio = { version = "=1.53.2", features = ["rt-multi-thread", "macros"] }
futures = "=0.3.34"
tracing = "=0.1.44"
tracing-appender = "=0.2.5"
tracing-subscriber = { version = "=0.3.23", features = ["json"] }
prettytable-rs = "=0.10.0"
