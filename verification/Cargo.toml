[package]
name = "rari_doc"
version = "0.1.0"
edition = "2021"
publish = false

[dependencies]
html-escape = "=0.3.0"
regex = "=1.13.1"
chrono = "=0.4.45"
lol_html = "=3.0.3"
scraper = "=0.29.0"
tracing = "=0.1.44"
tracing-subscriber = "=0.3.23"
dashmap = "=6.2.1"
cssparser = "=0.36.0"
ego-tree = "=0.11.1"
