[package]
name = "clickhouse_srv"
version = "0.1.0"
edition = "2021"
publish = false

[dependencies]
cityhash-rs = "=1.0.1"
lz4_flex = { version = "=0.14.0", default-features = false, features = ["std", "safe-encode", "safe-decode"] }
tokio = { version = "1", features = ["net", "io-util", "rt-multi-thread", "macros", "time", "sync"] }
futures = "0.3"
async-trait = "*"
chrono-tz = "*"
log = "0.4"
