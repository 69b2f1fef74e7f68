[package]
name = "hdcopy4bkup"
version = "0.1.0"
edition = "2021"
publish = false

[dependencies]
iced = { version = "=0.12.1", default-features = false }
iced_futures = "=0.12.0"
futures = "0.3"
chrono = "0.4"
