[package]
name = "handlr"
version = "0.1.0"
edition = "2021"
publish = false

[dependencies]
url = "*"
regex = "*"
shlex = "*"
mime-db = "*"
xdg-mime = "*"
xdg = "*"
tempfile = "*"
serde = { version = "*", features = ["derive"] }
confy = "*"
atty = "*"
json = "*"
ascii_table = "*"
