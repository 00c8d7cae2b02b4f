[package]
name = "glyph_atlas"
version = "0.1.0"
edition = "2021"
publish = false

[dependencies]
etagere = "=0.2.15"
lru = "=0.12.5"
