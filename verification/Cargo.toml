[package]
name = "tenebrae"
version = "0.1.0"
edition = "2021"
publish = false

[dependencies]
rand = "=0.8.8"
serde = { version = "=1.0.229", features = ["derive"] }
diesel = { version = "=1.4.8", features = ["postgres", "r2d2"] }
diesel-derive-enum = { version = "=0.4.4", features = ["postgres"] }
dotenv = "=0.15.0"
rocket = { version = "0.5", features = ["json"] }
