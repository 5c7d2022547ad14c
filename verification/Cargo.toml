[package]
name = "httpsd"
version = "0.1.1"
edition = "2021"
publish = false

[dependencies]
compcol = { version = "=0.7.8", features = ["gzip", "zlib", "deflate", "hpack", "qpack"] }
http = "=1.5.0"
libc = "=0.2.191"
purecrypto = { version = "=0.10.4", features = ["quic"] }
rsurl = "=0.1.21"
serde = { version = "=1.0.229", features = ["derive"] }
toml = "=1.1.8"
mio = { version = "=1.2.4", features = ["os-poll", "net"] }
tokio = { version = "=1.54.1", features = ["rt", "net", "io-util", "time"] }
