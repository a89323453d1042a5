[package]
name = "anim2rbx"
version = "0.1.0"
edition = "2021"
publish = false

[dependencies]
glam = "*"
rbx_types = "*"
rbx_dom_weak = "*"
rbx_binary = "*"
anyhow = "*"
clap = { version = "*", features = ["derive"] }
env_logger = "*"
log = "*"
russimp = "*"
