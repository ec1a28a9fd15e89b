[package]
name = "game_of_life"
version = "0.1.0"
edition = "2021"
publish = false

[dependencies]
bitvec = "0.17"
rand = "0.7"
wasm-bindgen = "0.2"
