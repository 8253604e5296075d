[package]
name = "mijit_bee"
version = "0.1.0"
edition = "2021"
publish = false

[dependencies]
mijit = "=0.1.8"
memoffset = "=0.9.1"
