[package]
name = "audiosync"
version = "0.1.0"
edition = "2021"
publish = false

[dependencies]
lofty = "*"
deunicode = "*"
regex = "*"
serde_json = "*"
clap = { version = "*", features = ["derive"] }
colored = "*"
globwalk = "*"
indicatif = "*"
rayon = "*"
filetime = "*"
