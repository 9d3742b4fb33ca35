[package]
name = "pof"
version = "0.1.0"
edition = "2021"
publish = false

[dependencies]
byteorder = "=1.5.0"
dae-parser = { version = "=0.11.0", features = ["nalgebra"] }
nalgebra = "=0.33.3"
nalgebra-glm = "=0.19.0"
once_cell = "=1.21.4"
