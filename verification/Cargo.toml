[package]
name = "torrent_tracker"
version = "0.1.0"
edition = "2021"
publish = false

[dependencies]
bip_bencode = "0.1"
time = "0.1"
toml = { version = "0.1", default-features = false }
url = "1"
hyper = { version = "0.10", default-features = false }
parking_lot = "0.12"
getopts = "0.2"
env_logger = { version = "0.4", default-features = false }
log = "0.3"
