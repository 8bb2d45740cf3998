[package]
name = "cookiejar"
version = "0.1.0"
edition = "2021"
publish = false

[dependencies]
bytes = "1"
cookie = "0.18"
http = "1"
tower = "0.5"
url = "2"
