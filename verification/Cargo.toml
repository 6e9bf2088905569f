[package]
name = "rpm-spec-analyzer"
version = "0.1.0"
edition = "2021"
publish = false

[dependencies]
rpm-spec = "=0.4.1"
time = "=0.3.55"
