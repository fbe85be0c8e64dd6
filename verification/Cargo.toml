[package]
name = "rfi"
version = "0.1.0"
edition = "2021"
publish = false

[dependencies]
pulldown-cmark = "=0.1.2"
regex = "=1.13.1"
reqwest = { version = "0.12", features = ["blocking", "json"] }
git2 = { version = "=0.21.0", features = ["https"] }
serde = { version = "=1.0.229", features = ["derive"] }
serde_json = "=1.0.154"
dotenv = "=0.15.0"
term-painter = "=0.4.0"
