[package]
name = "evtap"
version = "0.2.0"
edition = "2021"
publish = false

[dependencies]
chrono = "0.4"
serde = { version = "1", features = ["derive"] }
serde_json = "1"
rusqlite = { version = "*", features = ["bundled"] }
directories = "*"
thiserror = "*"
evdev = { version = "*", features = ["tokio"] }
tokio = { version = "1", features = ["rt-multi-thread", "macros", "sync", "time", "fs"] }
camino = "1"
xkbcommon = "*"
unicode_names2 = "*"
