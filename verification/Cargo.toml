[package]
name = "soundly"
version = "0.1.0"
edition = "2021"
publish = false

[dependencies]
cpal = "*"
hound = "*"
mp3lame-encoder = "*"
symphonia = { version = "*", features = ["mp3"] }
