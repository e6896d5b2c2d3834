[package]
name = "reqlang"
version = "0.1.0"
edition = "2021"
publish = false

[dependencies]
markdown = "=1.0.0"
httparse = "=1.10.1"
line-col = "=0.2.1"
toml = "=0.8.23"
serde = { version = "=1.0.229", features = ["derive"] }
serde_json = "=1.0.154"
clap = "=4.6.7"
tokio = { version = "=1.54.1", features = ["rt-multi-thread", "macros"] }
reqwest = { version = "=0.12.28", default-features = false, features = ["rustls-tls"] }
similar = "=2.7.0"
console = "=0.15.11"
reqlang-expr = "*"

[dev-dependencies]
textwrap = "=0.16.4"
