[package]
name = "file_classification"
version = "0.1.0"
edition = "2021"
publish = false

[dependencies]
chrono = "=0.4.45"
shlex = "=1.3.0"
clap = { version = "=4.6.7", features = ["derive"] }
rusqlite = { version = "=0.41.1", features = ["bundled"] }
dotenvy = "=0.15.7"
rustyline = "=19.0.0"
dialoguer = "=0.12.0"
regex = "1"
