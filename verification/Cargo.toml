[package]
name = "asbestos"
version = "0.1.0"
edition = "2021"
publish = false

[dependencies]
serde = { version = "1", features = ["derive"] }
serde_json = "1"
structopt = "0.3"
ctrlc = "3"
widestring = "0.4"
