[package]
name = "rank_engine"
version = "0.1.0"
edition = "2021"
publish = false

[dependencies]
base64 = "*"
md5 = "*"
cron = "*"
chrono = "*"
