[package]
name = "debris"
version = "0.1.0"
edition = "2021"
publish = false

[dependencies]
scraper = "=0.27.0"
ego-tree = "=0.11.0"
backtrace = "=0.3.76"
typename = "=0.1.2"
