[package]
name = "mdbook_epub"
version = "0.1.0"
edition = "2021"
publish = false

[dependencies]
pulldown-cmark = "=0.13.4"
html_parser = "=0.7.0"
url = "=2.5.8"
mime_guess = "=2.0.5"
epub-builder = "=0.8.3"
handlebars = "=6.4.4"
serde_json = "=1.0.151"
semver = "=1.0.28"
sanitize-filename = "=0.6.0"
mdbook = { version = "=0.4.52", default-features = false }
clap = { version = "=4.6.7", features = ["derive"] }
env_logger = "=0.11.11"
log = "=0.4.34"
serde = { version = "=1.0.229", features = ["derive"] }
ureq = "=3.4.2"
