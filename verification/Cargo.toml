[package]
name = "mongodb_oplog_stats"
version = "0.1.0"
edition = "2021"
publish = false

[dependencies]
bson = "2"
humansize = "1"
mongodb = { version = "2", default-features = false, features = ["sync"] }
clap = "2"
rpassword = "5"
prettytable-rs = "0.10"
indicatif = "0.17"
chrono = "0.4"
