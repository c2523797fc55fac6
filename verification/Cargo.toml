[package]
name = "git_export"
version = "0.1.0"
edition = "2021"
publish = false

[dependencies]
clap = { version = "4", features = ["derive"] }
console = "*"
git2 = { version = "*", default-features = false }
walkdir = "2"
zip = { version = "*", default-features = false, features = ["bzip2"] }
