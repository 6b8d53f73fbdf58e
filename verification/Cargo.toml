[package]
name = "price_notifier"
version = "0.1.0"
edition = "2021"
publish = false

[dependencies]
anyhow = "=1.0.104"
binance = "=0.20.2"
bincode = "=1.3.3"
dptree = "=0.3.0"
log = "=0.4.34"
pretty_env_logger = "=0.5.0"
# Not used by name: teloxide-core depends on takecell 0.1, and 0.1.2 needs
# rustc 1.96, so the release before it is held here for older compilers.
takecell = "=0.1.1"
teloxide = { version = "=0.12.2", features = ["macros"] }
tokio = { version = "=1.54.1", features = ["rt-multi-thread", "macros", "time", "sync"] }
