[package]
name = "coldb"
version = "0.1.0"
edition = "2021"
publish = false

[dependencies]
bincode = "1.3"
prettytable-rs = "0.10"
rustyline = "10"
serde = { version = "1.0", features = ["derive"] }
sqlparser = "0.30"
