[package]
name = "ormsgpack"
version = "0.1.0"
edition = "2021"
publish = false

[dependencies]
ahash = "*"
bytecount = "*"
byteorder = "*"
chrono = { version = "*", default-features = false }
half = "*"
itoa = "*"
pyo3 = { version = "*", default-features = false }
serde = "*"
serde_bytes = "*"
simdutf8 = "*"
smallvec = "*"

[dev-dependencies]
rmp = "*"
