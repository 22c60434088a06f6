[package]
name = "ifcount"
version = "0.1.0"
edition = "2021"
publish = false

[dependencies]
ansi_term = "=0.12.1"
anyhow = "=1.0.104"
async-trait = "=0.1.92"
cacache = { version = "=12.0.0", default-features = false, features = ["tokio-runtime"] }
clap = { version = "=4.6.7", features = ["derive"] }
crowbook-text-processing = "=1.1.1"
directories = "=5.0.1"
futures = "=0.3.34"
governor = "=0.6.3"
http = "=0.2.12"
hyper = "=0.14.32"
ignore = "=0.4.33"
indicatif = "=0.17.11"
octocrab = "=0.32.0"
pathdiff = "=0.2.3"
proc-macro2 = { version = "=1.0.107", features = ["span-locations"] }
rayon = "=1.12.0"
relative-path = "=1.9.3"
serde = { version = "=1.0.229", features = ["derive"] }
serde_json = "=1.0.154"
snafu = "=0.7.5"
syn = { version = "=2.0.119", features = ["full", "visit", "extra-traits"] }
tokio = { version = "=1.54.1", features = ["rt-multi-thread", "macros"] }
tracing = "=0.1.44"
tracing-indicatif = "=0.3.14"
tracing-subscriber = { version = "=0.3.23", features = ["env-filter"] }
url = "=2.5.8"
