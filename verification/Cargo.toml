[package]
name = "voice_capture"
version = "0.1.0"
edition = "2021"
publish = false

[dependencies]
bincode = "=1.3.3"
bitvec = "=1.1.1"
flacenc = { version = "=0.2.0", default-features = false, features = ["fakesimd"] }
portaudio-rs = "=0.3.2"
reqwest = { version = "=0.11.27", default-features = false, features = ["blocking", "rustls-tls"] }
serde_json = "=1.0.154"
websocket = { version = "=0.26.5", default-features = false, features = ["sync"] }
