[package]
name = "bevy_local_commands"
version = "0.1.0"
edition = "2021"
publish = false

[dependencies]
bevy = { version = "=0.16.1", default-features = false, features = ["std", "async_executor", "multi_threaded"] }
bevy_log = "=0.16.1"
