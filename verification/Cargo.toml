[package]
name = "lamp_schedule"
version = "0.1.0"
edition = "2021"
publish = false

[dependencies]
anyhow = "=1.0.104"
log = "=0.4.35"
serde = { version = "=1.0.229", features = ["derive"] }
serde_json = "=1.0.154"
esp-idf-svc = "=0.53.0"
esp-idf-hal = "=0.47.0"
smart-leds-trait = "=0.3.2"
ws2812-esp32-rmt-driver = { version = "=0.15.0", features = ["smart-leds-trait", "rmt-legacy"] }
