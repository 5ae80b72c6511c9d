[package]
name = "lichess_puzzle_csv_to_pgn"
version = "0.1.0"
edition = "2021"
publish = false

[dependencies]
csv = "=1.4.0"
shakmaty = "=0.29.4"
tempfile = "=3.27.0"
eframe = { version = "=0.37.0", default-features = false, features = ["glow", "default_fonts", "x11", "wayland"] }
rfd = { version = "=0.16.1", default-features = false, features = ["xdg-portal", "tokio"] }
