[package]
name = "danmu2ass"
version = "0.1.0"
edition = "2021"
publish = false

[dependencies]
url = "=2.5.8"
percent-encoding = "=2.3.2"
anyhow = "=1.0.104"
log = "=0.4.34"
pretty_env_logger = "=0.5.0"
clap = { version = "=3.2.25", features = ["derive"] }
serde = { version = "=1.0.229", features = ["derive"] }
serde_json = "=1.0.154"
toml = "=0.8.23"
glob = "=0.3.4"
rayon = "=1.12.0"
quick-xml = "=0.31.0"
tokio = { version = "=1.54.1", features = ["macros", "rt-multi-thread"] }
futures = "=0.3.34"
reqwest = { version = "=0.11.27", features = ["json"] }
prost = "=0.12.6"
biliapi = { version = "=0.1.18", features = ["native-tls"] }
actix-web = "=4.18.1"
actix-files = "=0.6.10"
open = "=5.4.5"
portpicker = "=0.1.1"
