[package]
name = "food_openapi_rs"
version = "0.1.0"
edition = "2021"
publish = false

[dependencies]
utoipa = "5"
inventory = "0.3"
serde = { version = "1", features = ["derive"] }
syn = { version = "2", features = ["full"] }
quote = "1"
proc-macro2 = "1"
