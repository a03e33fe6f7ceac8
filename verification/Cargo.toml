[package]
name = "esbuild_metafile"
version = "0.1.0"
edition = "2021"
publish = false

[dependencies]
actix-utils = "3"
actix-web = "4"
anyhow = "1"
askama = "0.14"
dashmap = "6"
once_cell = "1"
serde_json = "1"
