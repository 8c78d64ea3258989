[package]
name = "netti"
version = "0.1.0"
edition = "2021"
publish = false

[dependencies]
gio = "0.9"
glib = "0.10"
gtk = "0.9"
relm = "0.21"
relm-derive = "0.21"
