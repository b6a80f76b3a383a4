[package]
name = "article_extractor"
version = "0.1.0"
edition = "2021"
publish = false

[dependencies]
scraper = "*"
feed-parser = "*"
html2md = "*"
chrono = "*"
url = "*"
