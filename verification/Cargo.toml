[package]
name = "circom_witness"
version = "0.1.0"
edition = "2021"
publish = false

[dependencies]
num-bigint = "=0.4.8"
wasmer = "=6.1.0"
color-eyre = "=0.6.5"
