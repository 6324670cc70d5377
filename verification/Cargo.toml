[package]
name = "vector_ingest"
version = "0.1.0"
edition = "2021"
publish = false

[dependencies]
serde_json = "=1.0.151"
usearch = { version = "=2.26.4", default-features = false }
clap = { version = "=4.6.7", features = ["derive"] }
rayon = "=1.12.0"
stopwatch = "=0.0.7"
