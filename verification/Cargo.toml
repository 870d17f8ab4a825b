[package]
name = "once_map"
version = "0.1.0"
edition = "2021"
publish = false

[dependencies]
hashbrown = { version = "0.14", default-features = false, features = ["ahash", "inline-more"] }
ahash = "0.8"
stable_deref_trait = "1.2"
