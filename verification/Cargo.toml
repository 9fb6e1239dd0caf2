[package]
name = "taskmanager"
version = "0.1.0"
edition = "2021"
publish = false

[dependencies]
once_cell = "1"
reqwest = { version = "0.12", features = ["blocking"] }
tokio = { version = "1", features = ["macros", "rt-multi-thread", "sync", "time"] }
