[package]
name = "galaxy_cats"
version = "0.1.0"
edition = "2021"
publish = false

[dependencies]
bevy = { version = "=0.18.1", default-features = false }
bevy_ggrs = "0.20"
bevy_roll_safe = { version = "0.7", default-features = false, features = ["bevy_ggrs", "math_determinism"] }
log = "0.4"
serde = { version = "1.0", features = ["derive"] }
