[package]
name = "resona"
version = "0.1.0"
edition = "2021"
publish = false

[dependencies]
anyhow = "1"
futures = "0.3"
image = { version = "0.25", default-features = false, features = ["png"] }
lofty = "0.22"
log = "0.4"
rayon = "1.10"
serde = { version = "1", features = ["derive"] }
sqlx = { version = "0.8", default-features = false, features = ["runtime-tokio", "sqlite", "derive", "macros"] }
symphonia = "0.5"
tantivy = "0.22"
tokio = { version = "1", features = ["rt-multi-thread", "sync", "time", "macros"] }
walkdir = "2"
