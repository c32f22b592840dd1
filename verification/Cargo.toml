[package]
name = "bsc"
version = "0.1.0"
edition = "2021"
publish = false

[dependencies]
clap = "2"
console = "*"
curl = { version = "*", default-features = false }
fs_extra = "1"
git2 = { version = "*", default-features = false }
zip = { version = "0.5", default-features = false, features = ["deflate"] }
