[package]
name = "dlog-sigma-primitives"
version = "0.1.0"
edition = "2021"
publish = false

[dependencies]
curve25519-dalek = { version = "4", features = ["rand_core", "alloc"] }
k256 = { version = "0.13", features = ["arithmetic"] }
p384 = { version = "0.13", features = ["arithmetic"] }
merlin = "3"
rand_core = { version = "0.6", features = ["getrandom"] }
rand_chacha = "0.3"
base64ct = { version = "1", features = ["alloc"] }
zeroize = "1"
serde = { version = "1", features = ["derive"] }

[dev-dependencies]
rand = "0.8"
