[package]
name = "diskann_store"
version = "0.1.0"
edition = "2021"
publish = false

[dependencies]
anyhow = "=1.0.104"
async-trait = "=0.1.92"
bytemuck = "=1.25.2"
diskann = "=0.56.0"
diskann-disk = "=0.56.0"
diskann-inmem = "=0.56.0"
diskann-providers = "=0.56.0"
diskann-vector = "=0.56.0"
futures = "=0.3.34"
memmap2 = "=0.9.12"
tempfile = "=3.27.0"
tokio = { version = "=1.54.1", features = ["sync", "rt", "macros"] }
tracing = "=0.1.44"
