[package]
name = "ftml"
version = "0.1.0"
edition = "2021"
publish = false

[dependencies]
either = "1"
unic-langid = "0.9"
slog = "2"
serde = { version = "1", features = ["derive"] }
strum = { version = "0.24", features = ["derive"] }

[dev-dependencies]
serde_json = "1"
