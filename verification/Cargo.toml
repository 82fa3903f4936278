[package]
name = "pixel_demolition"
version = "0.1.0"
edition = "2021"
publish = false

[dependencies]
rand = "0.8"
image = "0.25"
tokio = { version = "1", features = ["full"] }
warp = "0.3"
futures = "0.3"
const-random = "0.1"
