[package]
name = "deacon"
version = "0.1.0"
edition = "2021"
publish = false

[dependencies]
ansi_term = "*"
ariadne = "*"
byte-unit = "*"
cargo_toml = "*"
chrono = "*"
comfy-table = "*"
dirs = "*"
git2 = { version = "*", default-features = false }
guess_host_triple = "*"
nerd_fonts = "*"
rustyline = "*"
rustyline-derive = "*"
shell-words = "*"
whoami = "*"
