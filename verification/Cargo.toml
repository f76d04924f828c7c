[package]
name = "stacked_portrayals"
version = "0.1.0"
edition = "2021"
publish = false

[dependencies]
petgraph = "*"
zip = { version = "*", default-features = false, features = ["deflate"] }
sha1 = "*"
sha2 = "*"
reqwest = { version = "*", default-features = false, features = ["blocking", "json", "rustls-tls"] }
serde = { version = "*", features = ["derive"] }
clap = { version = "*", features = ["derive"] }
directories = "*"
ariadne = "*"
tracing = "*"
tracing-subscriber = { version = "*", features = ["env-filter"] }
