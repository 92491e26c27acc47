[package]
name = "zonegen"
version = "0.1.0"
edition = "2021"
publish = false

[dependencies]
atomic-write-file = "0.2"
clap = { version = "4", features = ["derive"] }
color-eyre = "0.6"
futures = "0.3"
indoc = "2"
nom = "8"
nom-language = "0.1"
rustyline = "14"
sqlx = { version = "0.8", default-features = false, features = ["sqlite", "runtime-tokio"] }
tldextract = "0.6"
tokio = { version = "1", features = ["rt-multi-thread", "macros"] }
