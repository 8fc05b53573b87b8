[package]
name = "color_picker"
version = "0.1.0"
edition = "2021"
publish = false

[dependencies]
gtk4 = "=0.11.5"
libadwaita = "=0.9.2"
ashpd = { version = "=0.13.13", features = ["screenshot"] }
tokio = { version = "=1.54.1", features = ["macros", "rt-multi-thread"] }
serde = { version = "=1.0.229", features = ["derive"] }
serde_json = "=1.0.154"
