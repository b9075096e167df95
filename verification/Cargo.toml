[package]
name = "schematic_writer"
version = "0.1.0"
edition = "2021"
publish = false

[dependencies]
quartz_nbt = "=0.2.9"
