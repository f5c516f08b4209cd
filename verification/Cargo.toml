[package]
name = "hrpc"
version = "0.1.0"
edition = "2021"
publish = false

[dependencies]
varinteger = "1"
prost = "*"
prost-types = "*"
prost-build = "*"
async-std = "1"
futures = "0.3"
async-channel = "*"
async-trait = "0.1"
log = "0.4"
parking_lot = "*"
thiserror = "*"
quote = "1"
proc-macro2 = "1"
heck = "*"
tempfile = "3"
