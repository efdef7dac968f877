[package]
name = "boa"
version = "0.1.0"
edition = "2021"
publish = false

[dependencies]
rustc_apfloat = "=0.2.3"
rand = "=0.10.3"
serde_json = { version = "=1.0.154", features = ["arbitrary_precision"] }
ratel = "=0.7.0"
rustyline = "=19.0.0"
