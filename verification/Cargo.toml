[package]
name = "gas_reservations"
version = "0.1.0"
edition = "2021"
publish = false

[dependencies]
gstd = "=2.0.0"
sails-rs = "=2.0.0"
