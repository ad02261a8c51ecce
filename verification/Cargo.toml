[package]
name = "lrcget"
version = "0.1.0"
edition = "2021"
publish = false

[dependencies]
secular = "*"
collapse = "*"
ring = "*"
data-encoding = "*"
rusqlite = { version = "*", features = ["bundled"] }
lofty = "*"
walkdir = "*"
reqwest = { version = "*", default-features = false, features = ["blocking", "json", "rustls-tls"] }
serde = { version = "*", features = ["derive"] }
serde_json = "*"
rayon = "*"
