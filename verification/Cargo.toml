[package]
name = "chessbb"
version = "0.1.0"
edition = "2021"
publish = false

[dependencies]
arrayvec = "0.7"
rand = "0.9"
rand_distr = "0.5"
nalgebra = { version = "*", features = ["rand", "serde-serialize"] }
serde = { version = "1", features = ["derive"] }
rayon = "1"
atomic = "*"
bytemuck = { version = "1", features = ["derive"] }
termion = "*"
inquire = "*"
