[package]
name = "release_diff"
version = "0.1.0"
edition = "2021"
publish = false

[dependencies]
anyhow = "=1.0.104"
dissolve = "=0.2.2"
dotenv = "=0.15.0"
futures = "=0.3.34"
git2 = "=0.21.0"
reqwest = { version = "=0.13.5", default-features = false, features = ["json", "query"] }
serde = { version = "=1.0.229", features = ["derive"] }
structopt = "=0.3.26"
url = "=2.5.8"
