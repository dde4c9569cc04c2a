[package]
name = "feed_relay"
version = "0.1.0"
edition = "2021"
publish = false

[dependencies]
dotenvy = "0.15"
futures = "0.3"
mongodb = "2"
nescookie = "*"
poise = "0.6"
serde = { version = "1", features = ["derive"] }
thirtyfour = "*"
tokio = { version = "1", features = ["macros", "rt-multi-thread", "time"] }
