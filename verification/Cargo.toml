[package]
name = "grapl_pipeline"
version = "0.1.0"
edition = "2021"
publish = false

[dependencies]
zstd = "*"
prost = "*"
statsd-parser = "*"
rayon = "1"
log = "0.4"
futures = "0.3"
async-trait = "0.1"
rusoto_core = "*"
rusoto_cloudwatch = "*"
serde = { version = "1", features = ["derive"] }
thiserror = "*"
tracing = "0.1"
