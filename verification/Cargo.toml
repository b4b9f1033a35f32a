[package]
name = "maplewood"
version = "0.1.0"
edition = "2021"
publish = false

[dependencies]
slotmap = "1"
regex = "1"
evalexpr = "*"
serde = { version = "1", features = ["derive"] }
serde_json = "1"
anymap = "*"
log = { version = "0.4", features = ["kv"] }
mlua = { version = "0.10", features = ["lua54", "vendored"] }
sdl2 = { version = "0.37", features = ["mixer", "image", "ttf"] }
anyhow = "1"
colored = "*"
itertools = "*"
tap = "1"
smart-default = "*"
