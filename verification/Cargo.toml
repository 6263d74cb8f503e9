[package]
name = "ai_browser"
version = "0.1.0"
edition = "2021"
publish = false

[dependencies]
rand = "*"
log = "*"
env_logger = "*"
dotenv = "*"
reqwest = { version = "*", default-features = false }
zip = { version = "*", default-features = false, features = ["deflate"] }
thirtyfour = "*"
tokio = { version = "*", features = ["rt-multi-thread", "macros"] }
