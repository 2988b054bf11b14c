[package]
name = "aoc2019"
version = "0.1.0"
edition = "2021"
publish = false

[dependencies]
aoc-runner = "*"
aoc-runner-derive = "*"
itertools = "*"
pathfinding = "*"
rayon = "*"
recap = "*"
serde = { version = "*", features = ["derive"] }
