[package]
name = "g1-common"
version = "0.1.0"
edition = "2021"
publish = false

[dependencies]
topological-sort = "=0.1.0"
anyhow = "=1.0.104"
sha2 = "=0.10.9"
uuid = { version = "=1.29.0", features = ["v4"] }
rusqlite = "=0.41.0"
proc-macro2 = { version = "1", features = ["span-locations"] }
quote = "1"
syn = "2"
