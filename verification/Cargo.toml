[package]
name = "xsolla_callback"
version = "0.1.0"
edition = "2021"
publish = false

[dependencies]
sha1 = "0.10"
serde_json = "1"
netaddr2 = "*"
http = "0.2"
iso4217 = "*"
isocountry = "*"
serde = { version = "1", features = ["derive"] }
serde_with = "1"
warp = { version = "0.3", default-features = false }
tokio = { version = "1", features = ["macros", "rt-multi-thread"] }
reqwest = { version = "0.11", default-features = false, features = ["json"] }
handlebars = "4"
chrono = { version = "0.4", features = ["serde"] }
url = "2"
dotenv = "0.15"
eyre = "0.6"
color-eyre = "0.6"
tracing = "0.1"
tracing-subscriber = { version = "0.3", features = ["env-filter"] }
tracing-error = "0.2"
bytes = "1"
