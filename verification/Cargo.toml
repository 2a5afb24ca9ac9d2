[package]
name = "movie_shortlist"
version = "0.1.0"
edition = "2021"
publish = false

[dependencies]
urlencoding = "=2.1.3"
serde = { version = "=1.0.229", features = ["derive"] }
serde_json = "=1.0.151"
tokio = { version = "=1.53.2", features = ["rt-multi-thread", "macros", "fs", "time", "sync"] }
reqwest = { version = "=0.12.28", features = ["json"] }
teloxide = { version = "=0.17.0", features = ["macros"] }
anyhow = "=1.0.104"
dotenvy = "=0.15.7"
tracing-subscriber = { version = "=0.3.23", features = ["env-filter"] }
dptree = "=0.5.1"
takecell = "=0.1.1"
