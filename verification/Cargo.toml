[package]
name = "sighash_scan"
version = "0.1.0"
edition = "2021"
publish = false

[dependencies]
bitcoincore-rpc = "0.13"
log = "0.4"
simple-logging = "2"
structopt = "0.3"
