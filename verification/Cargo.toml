[package]
name = "cargo_msrv"
version = "0.1.0"
edition = "2021"
publish = false

[dependencies]
decent-toml-rs-alternative = "=0.3.0"
rust-releases = "=0.16.1"
semver = "=1.0.28"
console = "=0.16.6"
indicatif = "=0.18.6"
directories-next = "=2.0.0"
tracing = "*"
tracing-appender = "*"
tracing-subscriber = "*"
