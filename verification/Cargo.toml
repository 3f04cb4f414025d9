[package]
name = "quilkin"
version = "0.1.0"
edition = "2021"
publish = false

[dependencies]
async-trait = "0.1"
enum-map = "2"
eyre = "0.6"
prost = "0.13"
prost-types = "0.13"
schemars = "0.8"
serde = { version = "1", features = ["derive"] }
thiserror = "1"
tonic = { version = "0.12", default-features = false }
tracing = "0.1"
