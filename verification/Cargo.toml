[package]
name = "libunits-converter"
version = "0.1.0"
edition = "2021"
publish = false

[dependencies]
clap = { version = "4", features = ["derive"] }
futures = "0.3"
thiserror = "*"
tokio = { version = "1", features = ["macros", "rt-multi-thread"] }
turso = "*"
