[package]
name = "freader"
version = "0.1.0"
edition = "2021"
publish = false

[dependencies]
actix = "*"
actix-service = "*"
actix-web = { version = "*", default-features = false, features = ["macros", "compress-gzip"] }
chrono = "*"
diesel = { version = "*", features = ["sqlite", "chrono"] }
dotenv = "*"
env_logger = "*"
feed-rs = "*"
futures = "*"
log = "*"
opml = "*"
rand = "*"
reqwest = { version = "*", default-features = false }
serde = { version = "*", features = ["derive"] }
