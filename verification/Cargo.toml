[package]
name = "shousetsu-dump"
version = "0.1.0"
edition = "2021"
publish = false

[dependencies]
arg = "=0.4.7"
env-smart = "=1.0.1"
scraper = "=0.29.0"
serde = "=1.0.229"
serde_derive = "=1.0.229"
serde_ignored_type = "=1.0.1"
serde_json = "=1.0.154"
str-buf = { version = "=4.0.0", features = ["serde"] }
ureq = { version = "=3.5.1", features = ["json"] }
