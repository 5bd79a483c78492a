[package]
name = "table_par_iter"
version = "0.1.0"
edition = "2021"
publish = false

[dependencies]
rayon = "1"
