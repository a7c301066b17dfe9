[package]
name = "deepsize"
version = "0.1.0"
edition = "2021"
publish = false

[dependencies]
actix = "0.13"
arrayvec = "0.7"
chrono = "0.4"
hashbrown = "0.15"
indexmap = "2"
serde_json = "1"
slab = "0.4"
slotmap = "1"
smallvec = "1"
tokio = { version = "1", features = ["net"] }
