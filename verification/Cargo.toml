[package]
name = "xref_trace"
version = "0.1.0"
edition = "2021"
publish = false

[dependencies]
bad64 = "*"
clap = { version = "*", features = ["derive"] }
color-eyre = "*"
object = "*"
serde = { version = "*", features = ["derive"] }
serde_json = "*"
