[package]
name = "kiara"
version = "0.1.0"
edition = "2021"
publish = false

[dependencies]
clap = { version = "*", features = ["derive"] }
color-eyre = "*"
glam = { version = "*", features = ["mint"] }
input-event-codes = "*"
lazy_static = "*"
map-range = "*"
mint = "*"
stardust-xr-fusion = "*"
stardust-xr-molecules = "*"
tempfile = "*"
tokio = { version = "*", features = ["macros", "rt", "process", "signal"] }
tracing-subscriber = { version = "*", features = ["env-filter"] }
