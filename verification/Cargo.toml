[package]
name = "mdedit"
version = "0.1.0"
edition = "2021"
publish = false

[dependencies]
ropey = { version = "=1.6.1", default-features = false, features = ["simd"] }
unicode-width = "=0.2.0"
nucleo-matcher = "=0.3.1"
tree-sitter = "=0.27.1"
tree-sitter-md = { version = "=0.5.4", features = ["parser"] }
syntect = { version = "=5.3.0", default-features = false, features = ["default-fancy"] }
ratatui = "=0.29.0"
crossterm = "=0.28.1"
ignore = "=0.4.34"
arboard = "=3.7.0"
libc = "=0.2.191"
image = { version = "=0.25.10", default-features = false, features = ["png"] }
cosmic-text = "=0.12.1"
ratatui-image = "=4.2.0"
