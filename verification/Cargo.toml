[package]
name = "backend"
version = "0.1.0"
edition = "2021"
publish = false

[dependencies]
rand = "0.8"
chrono = "0.4"
serde = { version = "1", features = ["derive"] }
serde_json = "1"
tokio = { version = "1", features = ["rt-multi-thread", "macros", "time", "sync"] }
sqlx = { version = "0.8", default-features = false, features = ["postgres", "runtime-tokio", "derive"] }
reqwest = { version = "0.12", default-features = false, features = ["rustls-tls"] }
rayon = "1"
futures = "0.3"
once_cell = "1"
dotenv = "0.15"
csv = "1"
rocket = { version = "0.5", features = ["json"] }
rocket_cors = "*"
binance_spot_connector_rust = "*"
