[package]
name = "sausagewiki"
version = "0.1.0"
edition = "2021"
publish = false

[dependencies]
diff = "0.1"
slug = "0.1"
seahash = "3"
pulldown-cmark = { version = "0.2", default-features = false }
chrono = "0.4"
clap = "2"
diesel = { version = "1.4", features = ["sqlite", "chrono"] }
futures = "0.1"
futures-cpupool = "0.1"
hyper = "0.11"
r2d2 = "0.8"
r2d2-diesel = "1.0"
serde = { version = "1", features = ["derive"] }
serde_json = "1"
serde_urlencoded = "0.5"
