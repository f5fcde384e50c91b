[package]
name = "snarf"
version = "0.2.1"
edition = "2021"
publish = false

[dependencies]
chrono = { version = "0.4", features = ["serde"] }
clap = { version = "4", features = ["derive"] }
color-eyre = "0.6"
directories = "*"
fs2 = "0.4"
futures-util = "0.3"
hex = "0.4"
html2md = "0.2"
quick-xml = { version = "*", features = ["serialize"] }
rand = "*"
regex = "1"
reqwest = { version = "0.12", default-features = false, features = ["json", "charset", "rustls-tls"] }
scraper = "*"
semver = "1"
serde = { version = "1", features = ["derive"] }
serde_json = "1"
sha2 = "*"
tokio = { version = "1", features = ["macros", "process", "rt-multi-thread", "signal", "time"] }
url = "2"
zip = { version = "*", default-features = false, features = ["deflate"] }
