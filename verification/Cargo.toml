[package]
name = "l4addon_enforcer"
version = "0.1.0"
edition = "2021"
publish = false

[dependencies]
md-5 = "*"
sanitize-filename = "*"
clap = { version = "*", features = ["derive"] }
steamlocate = "*"
colored = "*"
helptext = "*"
sourcepak = "*"
