[package]
name = "privy_locker"
version = "0.1.0"
edition = "2021"
publish = false

[dependencies]
inco-lightning = "=0.1.4"
anchor-lang = "0.31"
