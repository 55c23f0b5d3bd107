[package]
name = "dart_piper_tts"
version = "0.2.1"
edition = "2021"
publish = false

[dependencies]
regex = "*"
unaccent = "*"
unicode-segmentation = "*"
cmudict-fast = "*"
ringbuf = "*"
serde = { version = "*", features = ["derive"] }
serde_json = "*"
log = "*"
env_logger = "*"
ndarray = "*"
ort = "=2.0.0-rc.15"
tinyaudio = "*"
