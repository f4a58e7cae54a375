[package]
name = "pyhyeon"
version = "0.1.0"
edition = "2021"
publish = false

[dependencies]
ariadne = "=0.5.1"
serde = { version = "=1.0.229", features = ["derive"] }
bincode = { version = "=2.0.1", features = ["serde"] }
rustyline = "=19.0.0"
dirs = "=7.0.0"
unicode-ident = "=1.0.27"
