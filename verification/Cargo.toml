[package]
name = "kornia_slam"
version = "0.1.0"
edition = "2021"
publish = false

[dependencies]
kornia-3d = "*"
kornia-algebra = "*"
kornia-apriltag = "*"
kornia-image = "*"
kornia-imgproc = "*"
faer = "*"
