[package]
name = "resume_manager"
version = "0.1.0"
edition = "2021"
publish = false

[dependencies]
regex = "1"
time = "0.3"
serde = { version = "1", features = ["derive"] }
serde_json = "1"
rusqlite = { version = "0.31", features = ["bundled"] }
ureq = { version = "2", features = ["json"] }
zip = { version = "0.6", default-features = false, features = ["deflate"] }
quick-xml = "0.31"
pdf-extract = "0.7"
printpdf = "0.8"
dirs = "5"
log = "0.4"
env_logger = "0.11"
thiserror = "1"
