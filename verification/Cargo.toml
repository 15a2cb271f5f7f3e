[package]
name = "gpx_stats"
version = "0.1.0"
edition = "2021"
publish = false

[dependencies]
quick-xml = "*"
chrono = "*"
term_size = "*"
