[package]
name = "dupes"
version = "0.1.0"
edition = "2021"
publish = false

[dependencies]
anyhow = "*"
clap = { version = "*", features = ["derive"] }
iced-x86 = "*"
object = "*"
rustc-demangle = "*"
