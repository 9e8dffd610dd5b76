[package]
name = "git2pdf"
version = "0.1.0"
edition = "2021"
publish = false

[dependencies]
anyhow = "=1.0.104"
clap = { version = "=4.6.7", features = ["derive"] }
gix = { version = "=0.88.0", features = ["blocking-network-client"] }
ignore = "=0.4.33"
printpdf = { version = "=0.12.8", features = ["html"] }
rayon = "=1.12.0"
syntect = "=5.3.0"
toml = "=1.1.7"
