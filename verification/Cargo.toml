[package]
name = "dragonglass_world"
version = "0.1.0"
edition = "2021"
publish = false

[dependencies]
nalgebra = "*"
nalgebra-glm = "*"
rapier3d = "*"
