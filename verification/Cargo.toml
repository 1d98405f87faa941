[package]
name = "hdr10plus"
version = "0.1.0"
edition = "2021"
publish = false

[dependencies]
anyhow = "=1.0.104"
bitvec_helpers = "=4.0.2"
hevc_parser = { version = "=0.6.12", features = ["hevc_io"] }
serde = { version = "=1.0.229", features = ["derive"] }
serde_json = "=1.0.154"
clap = { version = "=4.6.7", features = ["derive"] }
indicatif = "=0.18.6"
thiserror = "=2.0.21"
bitreader = "=0.3.11"
ansi_term = "=0.12.1"
read-byte-slice = "=0.1.2"
plotters = { version = "=0.3.7", default-features = false, features = ["bitmap_backend", "bitmap_encoder", "area_series", "ab_glyph"] }
