[package]
name = "emergence_zk"
version = "0.1.0"
edition = "2021"
publish = false

[dependencies]
chrono = { version = "0.4", default-features = false, features = ["std", "clock"] }
petgraph = "*"
pulldown-cmark = { version = "*", default-features = false }
nanoid = "0.4"
notify = "*"
tokio = { version = "1", features = ["rt-multi-thread", "macros", "sync", "time"] }
futures = "0.3"
rayon = "1"
tracing = "0.1"
tracing-subscriber = { version = "0.3", features = ["env-filter"] }
clap = { version = "4", features = ["derive"] }
color-eyre = "0.6"
thiserror = "*"
sea-orm = { version = "*", default-features = false, features = ["sqlx-sqlite", "runtime-tokio-rustls", "macros"] }
sea-orm-migration = { version = "*", default-features = false, features = ["sqlx-sqlite", "runtime-tokio-rustls"] }
async-trait = "0.1"
