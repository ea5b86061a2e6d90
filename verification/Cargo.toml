[package]
name = "blast_emst_core"
version = "0.1.0"
edition = "2021"
publish = false

[dependencies]
chrono = { version = "=0.4.45", features = ["serde"] }
rusqlite = "=0.40.2"
serde = { version = "=1.0.229", features = ["derive"] }
serde_json = "=1.0.154"
jni = "=0.21.1"
log = "=0.4.34"
android_log = "=0.1.3"
