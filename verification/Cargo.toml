[package]
name = "keyscan"
version = "0.1.0"
edition = "2021"
publish = false

[dependencies]
arraydeque = "=0.5.1"
keyberon = "=0.1.1"
embedded-hal = "=0.2.7"
