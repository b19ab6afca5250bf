[package]
name = "twrs"
version = "0.1.0"
edition = "2021"
publish = false

[dependencies]
colorous = "=1.0.16"
chrono = "=0.4.45"
dialoguer = "=0.10.4"
dirs = "=4.0.0"
egg-mode = "=0.16.1"
termion = "=1.5.6"
tokio = { version = "=1.53.2", features = ["macros", "rt-multi-thread"] }
tui = { version = "=0.19.0", default-features = false, features = ["termion"] }
