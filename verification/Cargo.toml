[package]
name = "x509_path"
version = "0.1.0"
edition = "2021"
publish = false

[dependencies]
const-oid = { version = "0.9", features = ["db"] }
der = { version = "0.7", features = ["alloc", "derive", "oid"] }
digest = "0.10"
hashbrown = "0.14"
sha1 = "0.10"
sha2 = "0.10"
spki = { version = "0.7", features = ["alloc"] }
x509-cert = "0.2"
x509-verify = "0.4"
