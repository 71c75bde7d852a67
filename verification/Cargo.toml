[package]
name = "spingus"
version = "0.1.0"
edition = "2021"
publish = false

[dependencies]
annotate-snippets = "0.10"
logos = "0.13"
nom = "7"
