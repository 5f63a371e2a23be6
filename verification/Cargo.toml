[package]
name = "game_of_life"
version = "0.1.0"
edition = "2021"
publish = false

[dependencies]
fixedbitset = "=0.4.2"
js-sys = "=0.3.106"
wasm-bindgen = "=0.2.129"
wee_alloc = "0.4.5"
