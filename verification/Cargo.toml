[package]
name = "argocd_diff_preview"
version = "0.1.0"
edition = "2021"
publish = false

[dependencies]
log = "0.4"
regex = "1"
serde_yaml = "0.9"
walkdir = "2"
