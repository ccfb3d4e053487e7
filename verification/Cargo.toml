[package]
name = "elf_preload"
version = "0.1.0"
edition = "2021"
publish = false

[dependencies]
cmake = "*"
bindgen = "*"

[dev-dependencies]
goblin = "*"
scroll = "*"
