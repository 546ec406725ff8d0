[package]
name = "nrrd_rs"
version = "0.1.0"
edition = "2021"
publish = false

[dependencies]
bytemuck = "1"
byteorder = "1"
bzip2 = "*"
clap = { version = "4", features = ["derive"] }
flate2 = "1"
num-traits = "0.2"
sprintf = "*"

[dev-dependencies]
regex = "1"
