[package]
name = "bin_proto"
version = "0.1.0"
edition = "2021"
publish = false

[dependencies]
bitstream-io = "2"
uuid = { version = "1", default-features = false }
