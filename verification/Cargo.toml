[package]
name = "geocab"
version = "0.1.0"
edition = "2021"
publish = false

[dependencies]
substrate-fixed = "=0.6.0"
substrate-geohash = "=0.14.0"
stylus-sdk = "=0.4.3"
alloy-primitives = "=0.3.3"
alloy-sol-types = "=0.3.1"
mini-alloc = "=0.4.2"
ruint = "=1.11.1"
