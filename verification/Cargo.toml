[package]
name = "pesh"
version = "0.1.0"
edition = "2021"
publish = false

[dependencies]
prometheus = "*"
prometheus_exporter = "*"
rustyline = "*"
cedarwood = "*"
app_dirs = "*"
clap = "*"
nom = "*"
