[package]
name = "summary_reporter"
version = "0.1.0"
edition = "2021"
publish = false

[dependencies]
biome_console = "*"
biome_diagnostics = "*"
