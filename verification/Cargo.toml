[package]
name = "kaku"
version = "0.1.2"
edition = "2021"
publish = false

[dependencies]
anstyle = "1"
crossterm = "*"
notify = "*"
pico-args = "*"
pulldown-cmark = { version = "*", default-features = false }
regex-automata = "0.4"
semver = "1"
syntect = { version = "5", default-features = false, features = ["default-fancy"] }
unicode-segmentation = "1"
unicode-width = "*"
ureq = "2"
