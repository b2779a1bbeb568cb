[package]
name = "vortex"
version = "0.1.0"
edition = "2021"
publish = false

[dependencies]
arrow-array = "=53.4.1"
arrow-buffer = "=53.4.1"
arrow-schema = "=53.4.1"
chrono = "=0.4.39"
datafusion-common = "=43.0.0"
datafusion-expr = "=43.0.0"
datafusion-physical-expr = "=43.0.0"
flexbuffers = "=2.0.0"
object_store = "=0.11.2"
prost = "=0.13.5"
prost-types = "=0.13.5"
serde = { version = "=1.0.229", features = ["derive"] }

[dev-dependencies]
arrow-ord = "=53.4.1"
half = "=2.7.1"
