[package]
name = "sp1_jit"
version = "0.1.0"
edition = "2021"
publish = false

[dependencies]
bincode = "=1.3.3"
dynasmrt = "=3.2.1"
hashbrown = "=0.14.5"
libc = "=0.2.191"
memmap2 = "=0.9.12"
object = { version = "=0.36.7", default-features = false, features = ["write"] }
serde = { version = "=1.0.229", features = ["derive", "rc"] }
