[package]
name = "archival"
version = "0.1.0"
edition = "2021"
publish = false

[dependencies]
# liquid depends on kstring; 2.0.4 and later declare a rustc floor newer
# than this project builds with, so hold the last patch that does not
kstring = "=2.0.2"
liquid = "0.26"
serde_json = "1"
pulldown-cmark = "0.9"
toml = { version = "0.8", features = ["preserve_order"] }
notify = "6"
fs_extra = "1"
walkdir = "2"
