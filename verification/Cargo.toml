[package]
name = "usdc_indexer"
version = "0.1.0"
edition = "2021"
publish = false

[dependencies]
ethers-core = "=2.0.14"
ethers-providers = { version = "=2.0.14", default-features = false, features = ["ws", "rustls"] }
tokio = { version = "=1.53.2", features = ["rt-multi-thread", "macros", "time", "net", "signal", "sync"] }
sqlx = { version = "=0.8.6", default-features = false, features = ["runtime-tokio", "tls-rustls", "postgres", "chrono", "rust_decimal"] }
serde = { version = "=1.0.229", features = ["derive"] }
serde_json = "=1.0.151"
chrono = { version = "=0.4.45", features = ["serde"] }
rust_decimal = "=1.43.0"
anyhow = "=1.0.104"
thiserror = "=2.0.21"
dotenv = "=0.15.0"
once_cell = "=1.21.4"
async-trait = "=0.1.92"
