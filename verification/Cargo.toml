[package]
name = "munk"
version = "0.1.0"
edition = "2021"
publish = false

[dependencies]
wood = "=0.9.0"
simple-error = "=0.3.3"
