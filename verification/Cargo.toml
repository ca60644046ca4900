[package]
name = "convex_bridge"
version = "0.1.0"
edition = "2021"
publish = false

[dependencies]
convex = "*"
futures = "*"
parking_lot = "*"
tokio = { version = "*", features = ["rt-multi-thread", "time", "macros", "sync"] }
