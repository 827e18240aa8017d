[package]
name = "roguelike"
version = "0.1.0"
edition = "2021"
publish = false

[dependencies]
rltk = "0.8"
bracket-random = "0.8"
bracket-geometry = "0.8"
bracket-pathfinding = "0.8"
legion = "0.2"
num-rational = "0.3"
pathfinding = "2"
serde = { version = "1", features = ["derive"] }
serde_json = "1"
ron = "0.6"
type-uuid = "0.1"
uuid = "0.8"
erased-serde = "0.3"
lazy_static = "1"
