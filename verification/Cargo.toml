[package]
name = "sessionizer"
version = "0.1.0"
edition = "2021"
publish = false

[dependencies]
anyhow = "*"
expanduser = "*"
jwalk = "*"
skim = "*"
tico = "*"
tmux_interface = "*"
