[package]
name = "arachnida"
version = "0.1.0"
edition = "2021"
publish = false

[dependencies]
chrono = "0.4"
clap = { version = "4", features = ["derive"] }
font8x8 = "0.3"
hmac = "0.12"
image = { version = "0.25", default-features = false, features = ["jpeg", "png", "gif", "bmp"] }
kamadak-exif = "0.5"
minifb = { version = "0.27", default-features = false, features = ["x11"] }
scraper = "*"
sha1 = "0.10"
ureq = "2"
url = "2"
