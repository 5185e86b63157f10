[package]
name = "imperium"
version = "0.1.0"
edition = "2021"
publish = false

[dependencies]
clap = { version = "=4.6.7", features = ["derive"] }
devicons = "=0.6.13"
git2 = { version = "=0.21.0", default-features = false }
owo-colors = "=4.4.0"
tabled = { version = "=0.22.0", default-features = false, features = ["std", "ansi"] }
terminal_size = "=0.4.4"
