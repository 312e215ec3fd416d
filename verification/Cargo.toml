[package]
name = "game_detector"
version = "0.1.0"
edition = "2021"
publish = false

[dependencies]
anyhow = "=1.0.104"
env_logger = { version = "*", default-features = false }
fs-err = "=3.3.2"
glob = "=0.3.4"
keyvalues-serde = "=0.2.4"
log = "=0.4.34"
serde_json = "=1.0.154"
winreg = "=0.56.0"
