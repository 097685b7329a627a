[package]
name = "polars_row"
version = "0.1.0"
edition = "2021"
publish = false

[dependencies]
arrow-buffer = "*"
arrow-data = "*"
arrow-schema = "*"
bytemuck = { version = "1", features = ["extern_crate_alloc"] }
