[package]
name = "grammar_pipeline"
version = "0.1.0"
edition = "2021"
publish = false

[dependencies]
serde_json = "1"
clap = { version = "4", features = ["derive"] }
indicatif = "0.17"
log = "0.4"
log4rs = "1"
reqwest = { version = "0.12", default-features = false, features = ["blocking"] }
scraper = "0.20"
threadpool = "1"
