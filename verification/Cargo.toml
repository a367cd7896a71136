[package]
name = "explorer_core"
version = "0.1.0"
edition = "2021"
publish = false

[dependencies]
jwalk = "*"
nucleo-matcher = "*"
grep-regex = "*"
grep-matcher = "*"
grep-searcher = "*"
ignore = "*"
sha2 = "*"
hex = "*"
dirs = "*"
fs_extra = "*"
chrono = "*"
image = { version = "*", default-features = false, features = ["jpeg", "png"] }
serde = { version = "*", features = ["derive"] }
serde_json = "*"
thiserror = "*"
