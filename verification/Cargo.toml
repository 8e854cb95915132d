[package]
name = "spg"
version = "0.1.0"
edition = "2021"
publish = false

[dependencies]
image = { version = "0.25", default-features = false, features = ["jpeg", "png"] }
kamadak-exif = "0.5"
md5 = "0.7"
bincode = "1"
serde = { version = "1", features = ["derive"] }
walkdir = "2"
clap = { version = "4", features = ["derive"] }
tokio = { version = "1", features = ["macros", "rt-multi-thread"] }
warp = "0.3"
futures = "0.3"
inotify = "0.10"
http = "0.2"
thiserror = "1"
