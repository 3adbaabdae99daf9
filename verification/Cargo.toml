[package]
name = "lumend"
version = "0.1.0"
edition = "2021"
publish = false

[dependencies]
jiff = "0.2"
rustix = { version = "1", features = ["fs", "mm"] }
serde = { version = "1", features = ["derive"] }
serde_json = "1"
toml = "0.8"
tracing = "0.1"
ureq = "3"
wayland-client = "0.31"
wayland-protocols = { version = "0.32", features = ["client", "staging"] }
wayland-protocols-wlr = { version = "0.3", features = ["client"] }
zbus = "5"
