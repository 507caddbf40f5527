[package]
name = "geofilter"
version = "0.1.0"
edition = "2021"
publish = false

[dependencies]
sha2 = "*"
httpdate = "*"
clap = { version = "*", features = ["derive"] }
reqwest = { version = "*", default-features = false }
tokio = { version = "*", features = ["rt-multi-thread", "macros"] }
