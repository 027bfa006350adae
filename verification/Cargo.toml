[package]
name = "rauk"
version = "0.2.0"
edition = "2021"
publish = false

[dependencies]
anyhow = "*"
chrono = "*"
ctrlc = "*"
gimli = "*"
glob = "*"
object = "*"
probe-rs = "*"
rustc-demangle = "*"
serde = { version = "*", features = ["derive"] }
serde_json = "*"
structopt = "*"
toml = "*"
