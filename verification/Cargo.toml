[package]
name = "error_info"
version = "0.1.0"
edition = "2021"
publish = false

[dependencies]
darling = "=0.23.0"
heck = "=0.5.0"
http = "=1.5.0"
linkme = "=0.3.37"
macro-field-utils = "=0.5.0"
proc-macro-error = "=1.0.4"
proc-macro2 = "=1.0.107"
quote = "=1.0.47"
serde = { version = "=1.0.229", features = ["derive"] }
syn = { version = "=2.0.119", features = ["full"] }

[dev-dependencies]
regex = "=1.13.1"
