[package]
name = "feature_toggles"
version = "0.1.0"
edition = "2021"
publish = false

[dependencies]
serde = { version = "1", features = ["derive"] }
serde_json = "1"
bson = "2"
mongodb = { version = "2", default-features = false, features = ["sync"] }
rants = "*"
futures = "0.3"
tokio = { version = "1", features = ["rt-multi-thread", "macros"] }
warp = "0.3"
structopt = "0.3"
