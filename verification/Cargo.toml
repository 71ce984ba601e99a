[package]
name = "avoxel"
version = "0.1.0"
edition = "2021"
publish = false

[dependencies]
bevy = { version = "=0.5.0", default-features = false, features = ["render"] }
bevy_app = "=0.5.0"
bevy_math = "=0.5.0"
bitflags = "=1.3.2"
byteorder = "=1.5.0"
crossbeam-channel = "=0.5.17"
generational-arena = "=0.2.9"
indexmap = "=1.9.3"
lz4 = "=1.28.1"
noise = "=0.7.0"
parking_lot = "=0.11.2"
serde = { version = "=1.0.229", features = ["derive"] }
serde_bytes = "=0.11.19"
serde_json = "=1.0.154"
# Not called by this crate. Bevy 0.5's derive crates use items of syn 1 that
# only its `full` feature has and do not ask for that feature themselves; these
# versions of tracing are the ones among bevy's dependencies that do.
tracing = "=0.1.26"
tracing-attributes = "=0.1.15"
vek = "=0.15.10"
