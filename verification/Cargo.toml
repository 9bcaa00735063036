[package]
name = "ghostwhisper"
version = "0.1.0"
edition = "2021"
publish = false

[dependencies]
evdev = "0.13"
ureq = "3"
notify-rust = "4"
tokio = { version = "1", features = ["rt", "macros"] }
zbus = { version = "5", default-features = false, features = ["tokio"] }
futures = "0.3"
cpal = "*"
whisper-rs = "*"
i18n-embed = { version = "*", features = ["desktop-requester"] }
