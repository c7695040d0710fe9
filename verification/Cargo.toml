[package]
name = "ide_diagnostics"
version = "0.1.0"
edition = "2021"

[dependencies]
itertools = "=0.9.0"
ra_syntax = "=0.1.0"
