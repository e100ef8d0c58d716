[package]
name = "career_sim"
version = "0.1.0"
edition = "2021"
publish = false

[dependencies]
rand = "0.9"
rand_xorshift = "0.4"
num-traits = "0.2"
serde = { version = "1", features = ["derive"] }
serde_json = "1"
indexmap = "2"
noisy_float = "0.2"
