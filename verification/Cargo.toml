[package]
name = "schedule"
version = "0.1.0"
edition = "2021"

[dependencies]
chrono = "0.4"
colored = "2"
structopt = "0.3"
