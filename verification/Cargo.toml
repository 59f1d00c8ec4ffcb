[package]
name = "l4_load_bearer"
version = "0.1.0"
edition = "2021"
publish = false

[dependencies]
ctrlc = "3"
mio = { version = "1", features = ["os-poll", "net"] }
notify-debouncer-mini = "*"
rlimit = "*"
serde = { version = "1", features = ["derive"] }
slab = "0.4"
toml = "*"
tracing = "0.1"
tracing-appender = "0.2"
tracing-subscriber = "0.3"
