[package]
name = "morseqtt"
version = "0.1.0"
edition = "2021"
publish = false

[dependencies]
getopts = "0.2"
indicatif = "0.11"
rumqtt = "0.31"
tokio = "0.1"
tokio-file-unix = "0.5"
