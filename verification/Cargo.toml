[package]
name = "rxing_reader"
version = "0.1.0"
edition = "2021"
publish = false

[dependencies]
encoding_rs = "=0.8.44"
codepage-437 = "=0.1.0"
bitvec = "1"
