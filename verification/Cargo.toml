[package]
name = "dataflow"
version = "0.1.0"
edition = "2021"

[dependencies]
byte-unit = "4"
serde_json = "1"
