[package]
name = "openshoot_core"
version = "0.1.0"
edition = "2021"
publish = false

[dependencies]
base64 = "=0.22.1"
sha2 = "=0.10.9"
serde = { version = "=1.0.229", features = ["derive"] }
serde_json = "=1.0.154"
rusqlite = { version = "=0.41.1", features = ["bundled"] }
image = { version = "=0.25.10", default-features = false, features = ["jpeg", "png"] }
chrono = "=0.4.45"
kamadak-exif = "=0.5.5"
walkdir = "=2.5.0"
dirs = "=7.0.0"
trash = "=5.2.9"
rayon = "=1.12.0"
ort = { version = "=2.0.0-rc.15", default-features = false, features = ["ndarray", "load-dynamic"] }
ndarray = "=0.17.2"
imageproc = { version = "0.25", default-features = false }

[dev-dependencies]
tempfile = "=3.27.0"
