[package]
name = "rustlock"
version = "0.1.0"
edition = "2021"
publish = false

[dependencies]
anyhow = "=1.0.104"
cairo-rs = "=0.22.9"
chrono = "=0.4.45"
clap = { version = "=4.6.7", features = ["derive"] }
gdk-pixbuf = "=0.22.0"
image = { version = "=0.25.10", default-features = false, features = ["png", "jpeg"] }
log = "=0.4.35"
mpris = "=2.1.0"
pam-client = "=0.5.0"
reqwest = { version = "=0.12.28", default-features = false }
serde = { version = "=1.0.229", features = ["derive"] }
smithay-client-toolkit = "=0.19.2"
tokio = { version = "=1.54.1", features = ["rt-multi-thread", "time", "sync", "macros"] }
toml = "=0.8.23"
upower_dbus = "=0.3.2"
users = "=0.11.0"
wayland-client = "=0.31.15"
wayland-protocols-wlr = { version = "=0.3.12", features = ["client"] }
whoami = "=1.6.1"
zbus = "=3.15.2"
zeroize = "=1.9.1"
