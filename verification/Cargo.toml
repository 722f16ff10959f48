[package]
name = "rphys"
version = "0.1.0"
edition = "2021"
publish = false

[dependencies]
anyhow = "*"
clap = { version = "*", features = ["derive"] }
fontdue = "*"
hound = "*"
rapier2d = "*"
serde = { version = "*", features = ["derive"] }
serde_yml = "*"
tempfile = "*"
thiserror = "*"
tiny-skia = "*"

[dev-dependencies]
serde_json = "*"
