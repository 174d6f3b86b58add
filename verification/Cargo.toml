[package]
name = "meeting_engine"
version = "0.1.0"
edition = "2021"
publish = false

[dependencies]
calcard = "=0.3.14"
chrono = "=0.4.45"
chrono-tz = { version = "=0.10.4", features = ["case-insensitive"] }
localzone = { version = "=0.3.1", features = ["win_zones"] }
regex = "=1.13.1"
zbus = "=5.19.0"
tokio = { version = "=1.53.2", features = ["rt", "rt-multi-thread", "sync", "macros", "time"] }
futures-util = "=0.3.34"
