[package]
name = "objstore"
version = "0.1.0"
edition = "2021"
publish = false

[dependencies]
anyhow = "=1.0.104"
byteorder = "=1.5.0"
filebuffer = "=1.0.1"
git-features = { version = "=0.26.5", features = ["crc32", "progress", "rustsha1", "zlib"] }
git-hash = "=0.10.3"
git-object = "=0.26.2"
git-pack = "=0.31.0"
