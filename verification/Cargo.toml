[package]
name = "ehdl"
version = "0.1.0"
edition = "2021"
publish = false

[dependencies]
zip = { version = "=0.6.6", default-features = false, features = ["deflate"] }
reqwest = { version = "*", default-features = false, features = ["stream"] }
tokio = { version = "*", features = ["macros", "rt-multi-thread"] }
futures-util = "*"
scraper = "*"
clap = { version = "*", features = ["derive"] }
chrono = "*"
fern_colored = "*"
log = "*"
toml = "*"
serde = { version = "*", features = ["derive"] }
json_minimal = "*"
indicatif = "*"
regex = "*"
