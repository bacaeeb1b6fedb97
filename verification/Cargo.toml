[package]
name = "wapplatalk"
version = "0.1.0"
edition = "2021"
publish = false

[dependencies]
env_logger = "0.11"
libpulse-binding = "2"
libpulse-simple-binding = "2"
log = "0.4"
opus = "0.3"
ratatui = "0.29"
rubato = "0.16"
symphonia = { version = "0.5", features = ["mp3"] }
tokio = { version = "1", features = ["net", "rt-multi-thread", "signal", "time"] }
