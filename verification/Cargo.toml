[package]
name = "polars_planner"
version = "0.1.0"
edition = "2021"
publish = false

[dependencies]
arrow2 = { version = "=0.17.2", default-features = false }
polars-core = { version = "=0.31.1", default-features = false }
polars-ops = { version = "=0.31.1", default-features = false, features = ["propagate_nans"] }
rayon = "=1.12.0"
