[package]
name = "orbit"
version = "0.1.0"
edition = "2021"
publish = false

[dependencies]
gtk4 = { version = "*", features = ["v4_12"] }
libadwaita = { version = "*", features = ["v1_5"] }
vte4 = "*"
glib = "*"
gio = "*"
