[package]
name = "script_bridge"
version = "0.1.0"
edition = "2021"
publish = false

[dependencies]
bevy = { version = "=0.13.2", default-features = false }
tealr = { version = "0.9", features = ["mlua_vendored", "mlua_send", "mlua_lua54"] }
