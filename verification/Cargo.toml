[package]
name = "chess_archive"
version = "0.1.0"
edition = "2021"
publish = false

[dependencies]
shakmaty = "=0.23.1"
pgn-reader = "=0.22.0"
btoi = "=0.4.3"
rayon = "=1.12.0"
diesel = { version = "=2.0.4", features = ["sqlite", "r2d2"] }
libsqlite3-sys = { version = "=0.25.2", features = ["bundled"] }
serde = { version = "=1.0.229", features = ["derive"] }
bzip2 = "=0.4.4"
zstd = "=0.12.4"
