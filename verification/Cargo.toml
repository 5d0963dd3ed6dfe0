[package]
name = "khushu"
version = "0.1.0"
edition = "2021"
publish = false

[dependencies]
chrono = "=0.4.45"
chrono-tz = "=0.10.4"
gettext-rs = "=0.7.7"
icu = "=2.4.0"
icu_experimental = "=0.7.0"
icu_locale = "=2.4.0"
base64 = "=0.22.1"
serde_json = "=1.0.154"
serde = { version = "=1.0.229", features = ["derive"] }
rand = "=0.9.5"
urlencoding = "=2.1.3"
hijri_date = "=0.5.1"
reqwest = { version = "0.12", default-features = false, features = ["blocking", "json"] }
tokio = { version = "1", features = ["rt-multi-thread", "macros"] }
