[package]
name = "bear_anki_sync"
version = "0.1.0"
edition = "2021"
publish = false

[dependencies]
anyhow = "1"
base64 = "0.22"
clap = { version = "4", features = ["derive", "env"] }
hex = "0.4"
muda = "*"
pulldown-cmark = "*"
resvg = "*"
serde = { version = "1", features = ["derive"] }
serde_json = "1"
sha2 = "0.10"
tiny-skia = "0.11"
toml = "0.8"
tray-icon = "*"
ureq = "2"
usvg = "*"
winit = "0.30"
