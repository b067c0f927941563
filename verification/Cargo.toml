[package]
name = "tinue_finder"
version = "0.1.0"
edition = "2021"
publish = false

[dependencies]
board-game-traits = "*"
pgn-traits = "*"
serde_json = "*"
clap = "2"
rayon = "*"
rusqlite = { version = "*", features = ["bundled"] }
