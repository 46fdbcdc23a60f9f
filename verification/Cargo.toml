[package]
name = "vic3_analyzer"
version = "0.1.0"
edition = "2021"
publish = false

[dependencies]
regex = "1"
jomini = "*"
glob = "0.3"
image = { version = "*", default-features = false, features = ["png"] }
zip = { version = "*", default-features = false, features = ["deflate"] }
fltk = "1"
